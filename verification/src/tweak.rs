//! Live-tunable parameters.
//!
//! A game registers the values that may be tuned while it runs, each under a name
//! of its own. The leaves of a registered value are listed under dotted paths,
//! and a path is what an edit and an override go by: `sky.clouds`,
//! `camera.offset.x`. An edit is clamped to the range that the field declares,
//! what landed is recorded as an override, and clearing an override puts back the
//! value that was there when the root was registered.

use vstd::prelude::*;

use crate::find::{first_is, first_is_none, first_means, first_where, none_before};
use crate::float::{
    as_whole, bits_of_whole, clamped, magnitude, round_through_double, saturated, through_double,
    whole_bits, F32, INFINITY_BITS, ONE_BITS,
};
use crate::paths::PathMap;
use crate::reflect::{
    default_int_range, default_int_range_spec, default_range, default_range_spec,
    default_signed_range, default_signed_range_spec, fields_view, find_named, in_order,
    named, node_fields, switch_range_spec, variants_view, Field, FieldRange,
    FieldView, Node, NodeView, Scalar, Variant, VariantView,
};
use crate::text::{
    after_dot, before_dot, decimal, find_dot, has_dot, joined, number, parse_index, pieces,
    signed_decimal, split_dots, trim_end, trimmed, views, write_decimal, write_signed,
};

verus! {

/// How many leaves one root may contribute.
pub const MAX_FIELDS_PER_ROOT: usize = 512;

/// How deep the walk descends before it stops.
pub const MAX_DEPTH: usize = 8;

/// The value of one leaf, in the shapes that a panel can draw.
#[derive(Debug, PartialEq)]
pub enum TweakValue {
    Float(F32),
    Bool(bool),
    /// Every width of integer, widened.
    Int(i64),
    /// A unit variant of an enum, by name.
    Choice(String),
}

/// What a leaf's value is.
pub enum ValueView {
    Float(F32),
    Bool(bool),
    Int(i64),
    Choice(Seq<char>),
}

impl View for TweakValue {
    type V = ValueView;

    open spec fn view(&self) -> ValueView {
        match self {
            TweakValue::Float(v) => ValueView::Float(*v),
            TweakValue::Bool(v) => ValueView::Bool(*v),
            TweakValue::Int(v) => ValueView::Int(*v),
            TweakValue::Choice(v) => ValueView::Choice(v@),
        }
    }
}

impl Clone for TweakValue {
    fn clone(&self) -> (r: TweakValue)
        ensures
            r@ == self@,
    {
        match self {
            TweakValue::Float(v) => TweakValue::Float(*v),
            TweakValue::Bool(v) => TweakValue::Bool(*v),
            TweakValue::Int(v) => TweakValue::Int(*v),
            TweakValue::Choice(v) => TweakValue::Choice(v.clone()),
        }
    }
}

/// A number with three decimals, shortened: without the zeros that it ends in,
/// and without a point left bare.
pub open spec fn shortened(s: Seq<char>) -> Seq<char> {
    let t = trimmed(trimmed(s, '0'), '.');
    if t.len() == 0 || t == seq!['-'] {
        seq!['0']
    } else {
        t
    }
}

/// A value as a panel prints it. `decimals` is the value with three decimals,
/// where it is a single-precision one.
pub open spec fn shown(v: ValueView, decimals: Seq<char>) -> Seq<char> {
    match v {
        ValueView::Float(_) => shortened(decimals),
        ValueView::Bool(b) => if b {
            seq!['o', 'n']
        } else {
            seq!['o', 'f', 'f']
        },
        ValueView::Int(n) => signed_decimal(n as int),
        ValueView::Choice(name) => name,
    }
}

impl TweakValue {
    /// The value as a panel prints it: floats trimmed, bools as words. Writing a
    /// float out is the caller's part: `decimals` is what three decimals of it
    /// are, and is not read where the value is no float.
    pub fn display(&self, decimals: &str) -> (r: String)
        ensures
            r@ == shown(self@, decimals@),
    {
        match self {
            TweakValue::Float(_) => {
                let text: String = trim_end(trim_end(decimals, '0').as_str(), '.');
                let n: usize = text.as_str().unicode_len();
                if n == 0 || (n == 1 && text.as_str().get_char(0) == '-') {
                    let zero: String = "0".to_owned();
                    proof {
                        reveal_strlit("0");
                        assert(zero@ =~= seq!['0']);
                        if n == 1 {
                            assert(text@ =~= seq!['-']);
                        }
                    }
                    zero
                } else {
                    text
                }
            },
            TweakValue::Bool(v) => {
                let word: String = if *v {
                    "on".to_owned()
                } else {
                    "off".to_owned()
                };
                proof {
                    reveal_strlit("on");
                    reveal_strlit("off");
                    assert(word@ =~= shown(self@, decimals@));
                }
                word
            },
            TweakValue::Int(v) => write_signed(*v),
            TweakValue::Choice(v) => v.clone(),
        }
    }
}

/// One leaf, as a panel sees it.
pub struct TweakField {
    /// The dotted path: what an override goes by.
    pub path: String,
    /// The root that it belongs to, by its place among the roots.
    pub root: usize,
    /// The path behind the root's name.
    pub label: String,
    /// The value in the world, right now.
    pub value: TweakValue,
    /// Where a slider's ends sit, and what one arrow press is worth.
    pub range: FieldRange,
    /// The variants of an enum, in the order of their declaration.
    pub choices: Vec<String>,
    /// Whether there is an override for the path.
    pub overridden: bool,
}

/// What a listed leaf is.
pub struct TweakFieldView {
    pub path: Seq<char>,
    pub root: int,
    pub label: Seq<char>,
    pub value: ValueView,
    pub range: FieldRange,
    pub choices: Seq<Seq<char>>,
    pub overridden: bool,
}

impl View for TweakField {
    type V = TweakFieldView;

    open spec fn view(&self) -> TweakFieldView {
        TweakFieldView {
            path: self.path@,
            root: self.root as int,
            label: self.label@,
            value: self.value@,
            range: self.range,
            choices: views(self.choices@),
            overridden: self.overridden,
        }
    }
}

/// What one arrow press is worth: the declared step, else a hundredth of the
/// range for a float and one for anything else.
pub open spec fn step_of(range: FieldRange, value: ValueView, hundredth: F32) -> F32 {
    if crate::float::below(F32(0), range.step) {
        range.step
    } else if value is Float {
        hundredth
    } else {
        F32(ONE_BITS)
    }
}

impl TweakField {
    /// What one arrow press is worth, in the value's own units. `hundredth` is a
    /// hundredth of the width of the range.
    pub fn step(&self, hundredth: F32) -> (r: F32)
        ensures
            r == step_of(self.range, self.value@, hundredth),
    {
        if F32(0).lt(self.range.step) {
            return self.range.step;
        }
        match self.value {
            TweakValue::Float(_) => hundredth,
            _ => F32(ONE_BITS),
        }
    }
}

/// Why an edit did not land.
#[derive(Clone, Copy, Debug, PartialEq, Eq, Structural)]
pub enum TweakError {
    /// No root of that name, or no such field under it.
    NoSuchPath,
    /// The root is registered, and what it names is not in the world right now.
    RootAbsent,
    /// The path names a field of another shape.
    WrongKind,
}

impl TweakError {
    /// The error in words.
    pub fn message(&self) -> (r: String)
        ensures
            r@ == (match *self {
                TweakError::NoSuchPath => "no such tweakable"@,
                TweakError::RootAbsent => "the root is not in the world"@,
                TweakError::WrongKind => "the value is the wrong kind for that field"@,
            }),
    {
        match *self {
            TweakError::NoSuchPath => "no such tweakable".to_owned(),
            TweakError::RootAbsent => "the root is not in the world".to_owned(),
            TweakError::WrongKind => "the value is the wrong kind for that field".to_owned(),
        }
    }
}

/// A leaf's value.
pub open spec fn scalar_value(s: Scalar) -> ValueView {
    match s {
        Scalar::Float(v) => ValueView::Float(v),
        Scalar::Bool(v) => ValueView::Bool(v),
        Scalar::U8(v) => ValueView::Int(v as i64),
        Scalar::U32(v) => ValueView::Int(v as i64),
        Scalar::U64(v) => ValueView::Int(v as i64),
        Scalar::Usize(v) => ValueView::Int(v as i64),
        Scalar::I32(v) => ValueView::Int(v as i64),
        Scalar::I64(v) => ValueView::Int(v),
    }
}

/// The range of a leaf whose field declares none.
pub open spec fn scalar_range(s: Scalar) -> FieldRange {
    match s {
        Scalar::Float(_) => default_range_spec(),
        Scalar::Bool(_) => switch_range_spec(),
        Scalar::U8(_) => default_int_range_spec(),
        Scalar::U32(_) => default_int_range_spec(),
        Scalar::U64(_) => default_int_range_spec(),
        Scalar::Usize(_) => default_int_range_spec(),
        Scalar::I32(_) => default_signed_range_spec(),
        Scalar::I64(_) => default_signed_range_spec(),
    }
}

/// A leaf's value, and the range that it has where its field declares none.
fn leaf_of(s: Scalar) -> (r: (TweakValue, FieldRange))
    ensures
        r.0@ == scalar_value(s),
        r.1 == scalar_range(s),
{
    match s {
        Scalar::Float(v) => (TweakValue::Float(v), default_range()),
        Scalar::Bool(v) => (
            TweakValue::Bool(v),
            FieldRange::new(F32(0), F32(ONE_BITS)).with_step(F32(ONE_BITS)),
        ),
        Scalar::U8(v) => (TweakValue::Int(v as i64), default_int_range()),
        Scalar::U32(v) => (TweakValue::Int(v as i64), default_int_range()),
        Scalar::U64(v) => (TweakValue::Int(v as i64), default_int_range()),
        Scalar::Usize(v) => (TweakValue::Int(v as i64), default_int_range()),
        Scalar::I32(v) => (TweakValue::Int(v as i64), default_signed_range()),
        Scalar::I64(v) => (TweakValue::Int(v), default_signed_range()),
    }
}

/// The value that a node has where it is a leaf, or an enum none of whose variants
/// carries data.
pub open spec fn value_of(node: NodeView) -> Option<ValueView> {
    match node {
        NodeView::Enum { variants, current } => if all_unit(variants) {
            Some(ValueView::Choice(current))
        } else {
            None
        },
        NodeView::Leaf(s) => Some(scalar_value(s)),
        _ => None,
    }
}

/// The value of a node that a path led to.
fn leaf_value(node: &Node) -> (r: Option<TweakValue>)
    ensures
        match r {
            Some(v) => value_of(node.view()) == Some(v@),
            None => value_of(node.view()) is None,
        },
{
    match node {
        Node::Enum { variants, current } => if no_data(variants) {
            Some(TweakValue::Choice(current.clone()))
        } else {
            None
        },
        Node::Leaf(s) => Some(leaf_of(*s).0),
        _ => None,
    }
}

// ---------------------------------------------------------------------------
// The walk
// ---------------------------------------------------------------------------

/// The fields of a struct or a tuple struct.
pub open spec fn children(node: NodeView) -> Seq<FieldView> {
    match node {
        NodeView::Struct(f) => f,
        NodeView::TupleStruct(f) => f,
        _ => Seq::empty(),
    }
}

/// What a field goes by: its name, or its number in a tuple struct.
pub open spec fn child_name(node: NodeView, i: int) -> Seq<char> {
    match node {
        NodeView::Struct(f) => f[i].name,
        _ => decimal(i as nat),
    }
}

/// The range that a field declares, else the one that it inherits.
pub open spec fn inherited(own: Option<FieldRange>, above: Option<FieldRange>) -> Option<
    FieldRange,
> {
    match own {
        Some(r) => Some(r),
        None => above,
    }
}

/// A range that is declared, else another.
pub open spec fn or_range(declared: Option<FieldRange>, other: FieldRange) -> FieldRange {
    match declared {
        Some(r) => r,
        None => other,
    }
}

/// Whether every variant carries no data.
pub open spec fn all_unit(variants: Seq<VariantView>) -> bool {
    forall|i: int| 0 <= i < variants.len() ==> (#[trigger] variants[i]).unit
}

/// The names of the variants.
pub open spec fn names(variants: Seq<VariantView>) -> Seq<Seq<char>> {
    Seq::new(variants.len(), |i: int| variants[i].name)
}

/// The range of an enum whose field declares none: the places of its variants.
pub open spec fn choice_range(n: nat) -> FieldRange {
    FieldRange {
        min: F32(0),
        max: F32(
            whole_bits(
                if n == 0 {
                    0
                } else {
                    (n - 1) as nat
                },
            ) as u32,
        ),
        step: F32(ONE_BITS),
    }
}

/// What a panel puts in the left column: the path behind the root's name.
pub open spec fn label_of(path: Seq<char>) -> Seq<char> {
    if has_dot(path) {
        after_dot(path)
    } else {
        path
    }
}

/// A leaf as it is listed.
pub open spec fn row(
    path: Seq<char>,
    root: int,
    value: ValueView,
    range: FieldRange,
    choices: Seq<Seq<char>>,
) -> TweakFieldView {
    TweakFieldView {
        path,
        root,
        label: label_of(path),
        value,
        range,
        choices,
        overridden: false,
    }
}

/// The path of a field of what `path` names.
pub open spec fn under(path: Seq<char>, name: Seq<char>) -> Seq<char> {
    path + seq!['.'] + name
}

/// The leaves of `node`, depth first. `declared` is the range that a field above
/// it declares, and `depth` how deep it stands.
pub open spec fn leaves(
    node: NodeView,
    path: Seq<char>,
    root: int,
    depth: int,
    declared: Option<FieldRange>,
) -> Seq<TweakFieldView>
    decreases 10 - depth, children(node).len() + 1,
{
    if depth > MAX_DEPTH {
        Seq::empty()
    } else {
        match node {
            NodeView::Struct(f) => leaves_of(node, f.len() as int, path, root, depth, declared),
            NodeView::TupleStruct(f) => leaves_of(
                node,
                f.len() as int,
                path,
                root,
                depth,
                declared,
            ),
            NodeView::Enum { variants, current } => if all_unit(variants) {
                seq![
                    row(
                        path,
                        root,
                        ValueView::Choice(current),
                        or_range(declared, choice_range(variants.len())),
                        names(variants),
                    ),
                ]
            } else {
                Seq::empty()
            },
            NodeView::Leaf(s) => seq![
                row(
                    path,
                    root,
                    scalar_value(s),
                    or_range(declared, scalar_range(s)),
                    Seq::empty(),
                ),
            ],
            NodeView::Opaque => Seq::empty(),
        }
    }
}

/// The leaves of the first `n` fields of `node`.
pub open spec fn leaves_of(
    node: NodeView,
    n: int,
    path: Seq<char>,
    root: int,
    depth: int,
    declared: Option<FieldRange>,
) -> Seq<TweakFieldView>
    decreases 10 - depth, n,
{
    if n <= 0 || depth > MAX_DEPTH {
        Seq::empty()
    } else {
        let field = children(node)[n - 1];
        leaves_of(node, n - 1, path, root, depth, declared) + leaves(
            field.value,
            under(path, child_name(node, n - 1)),
            root,
            depth + 1,
            inherited(field.range, declared),
        )
    }
}

/// The listed leaves, as what they are.
pub open spec fn field_views(s: Seq<TweakField>) -> Seq<TweakFieldView> {
    Seq::new(s.len(), |i: int| s[i]@)
}

fn push_leaf(
    out: &mut Vec<TweakField>,
    path: &str,
    root: usize,
    value: TweakValue,
    range: FieldRange,
    choices: Vec<String>,
)
    ensures
        field_views(final(out)@) == field_views(old(out)@) + seq![
            row(path@, root as int, value@, range, views(choices@)),
        ],
{
    let ghost before = field_views(out@);
    let n: usize = path.unicode_len();
    let dot: usize = find_dot(path);
    let label: String = if dot < n {
        path.substring_char(dot + 1, n).to_owned()
    } else {
        path.to_owned()
    };
    proof {
        assert(label@ =~= label_of(path@));
    }
    let field = TweakField {
        path: path.to_owned(),
        root,
        label,
        value,
        range,
        choices,
        overridden: false,
    };
    let ghost seen = field@;
    out.push(field);
    proof {
        assert(field_views(out@) =~= before + seq![seen]);
    }
}

/// Whether no variant carries data.
fn no_data(variants: &Vec<Variant>) -> (r: bool)
    ensures
        r == all_unit(variants_view(variants@)),
{
    let mut i: usize = 0;
    while i < variants.len()
        invariant
            i <= variants@.len(),
            forall|j: int| 0 <= j < i ==> variants@[j].unit,
        decreases variants@.len() - i,
    {
        if !variants[i].unit {
            proof {
                assert(!variants_view(variants@)[i as int].unit);
            }
            return false;
        }
        i = i + 1;
    }
    true
}

/// The names of an enum's variants, where none carries data.
fn unit_names(variants: &Vec<Variant>) -> (r: Option<Vec<String>>)
    ensures
        match r {
            Some(v) => all_unit(variants_view(variants@)) && views(v@) == names(
                variants_view(variants@),
            ),
            None => !all_unit(variants_view(variants@)),
        },
{
    let mut out: Vec<String> = Vec::new();
    let mut i: usize = 0;
    while i < variants.len()
        invariant
            i <= variants@.len(),
            out@.len() == i,
            forall|j: int| 0 <= j < i ==> variants@[j].unit,
            forall|j: int| 0 <= j < i ==> (#[trigger] out@[j])@ == variants@[j].name@,
        decreases variants@.len() - i,
    {
        if !variants[i].unit {
            proof {
                assert(!variants_view(variants@)[i as int].unit);
            }
            return None;
        }
        out.push(variants[i].name.clone());
        i = i + 1;
    }
    proof {
        assert(views(out@) =~= names(variants_view(variants@)));
    }
    Some(out)
}

fn child_path(path: &str, name: &str) -> (r: String)
    ensures
        r@ == under(path@, name@),
{
    let dot: String = joined(path, ".");
    proof {
        reveal_strlit(".");
        assert("."@ =~= seq!['.']);
    }
    joined(dot.as_str(), name)
}

/// Walk the leaves of `node`, depth first, and list each.
fn walk(
    node: &Node,
    path: &str,
    root: usize,
    depth: usize,
    declared: Option<FieldRange>,
    out: &mut Vec<TweakField>,
)
    requires
        depth <= MAX_DEPTH + 1,
    ensures
        field_views(final(out)@) == field_views(old(out)@) + leaves(
            node.view(),
            path@,
            root as int,
            depth as int,
            declared,
        ),
    decreases MAX_DEPTH + 1 - depth, 1int,
{
    let ghost before = field_views(out@);
    if depth > MAX_DEPTH {
        proof {
            assert(before =~= before + Seq::<TweakFieldView>::empty());
        }
        return;
    }
    proof {
        node_fields(*node);
    }
    match node {
        Node::Struct(fields) => walk_fields(node, fields, path, root, depth, declared, out),
        Node::TupleStruct(fields) => walk_fields(node, fields, path, root, depth, declared, out),
        Node::Enum { variants, current } => {
            match unit_names(variants) {
                Some(choices) => {
                    let range: FieldRange = match declared {
                        Some(r) => r,
                        None => {
                            let n: usize = choices.len();
                            let top: u64 = if n == 0 {
                                0
                            } else {
                                (n - 1) as u64
                            };
                            proof {
                                assert(views(choices@).len() == n);
                            }
                            FieldRange {
                                min: F32(0),
                                max: F32(bits_of_whole(top)),
                                step: F32(ONE_BITS),
                            }
                        },
                    };
                    push_leaf(out, path, root, TweakValue::Choice(current.clone()), range, choices);
                },
                None => {
                    proof {
                        assert(before =~= before + Seq::<TweakFieldView>::empty());
                    }
                },
            }
        },
        Node::Leaf(s) => {
            let (value, fallback) = leaf_of(*s);
            let range: FieldRange = match declared {
                Some(r) => r,
                None => fallback,
            };
            let none: Vec<String> = Vec::new();
            proof {
                assert(views(none@) =~= Seq::empty());
            }
            push_leaf(out, path, root, value, range, none);
        },
        Node::Opaque => {
            proof {
                assert(before =~= before + Seq::<TweakFieldView>::empty());
            }
        },
    }
}

/// Walk the fields of a struct or a tuple struct.
fn walk_fields(
    node: &Node,
    fields: &Vec<Field>,
    path: &str,
    root: usize,
    depth: usize,
    declared: Option<FieldRange>,
    out: &mut Vec<TweakField>,
)
    requires
        depth <= MAX_DEPTH,
        *node == Node::Struct(*fields) || *node == Node::TupleStruct(*fields),
    ensures
        field_views(final(out)@) == field_views(old(out)@) + leaves_of(
            node.view(),
            fields@.len() as int,
            path@,
            root as int,
            depth as int,
            declared,
        ),
    decreases MAX_DEPTH + 1 - depth, 0int,
{
    let ghost before = field_views(out@);
    proof {
        node_fields(*node);
        assert(before =~= before + Seq::<TweakFieldView>::empty());
    }
    let named: bool = match node {
        Node::Struct(_) => true,
        _ => false,
    };
    let mut i: usize = 0;
    while i < fields.len()
        invariant
            depth <= MAX_DEPTH,
            i <= fields@.len(),
            *node == Node::Struct(*fields) || *node == Node::TupleStruct(*fields),
            named == (node is Struct),
            children(node.view()) == fields_view(fields@),
            node.view() is Struct == named,
            field_views(out@) == before + leaves_of(
                node.view(),
                i as int,
                path@,
                root as int,
                depth as int,
                declared,
            ),
        decreases fields@.len() - i,
    {
        let name: String = if named {
            fields[i].name.clone()
        } else {
            write_decimal(i as u64)
        };
        let below: String = child_path(path, name.as_str());
        let range: Option<FieldRange> = match fields[i].range {
            Some(r) => Some(r),
            None => declared,
        };
        proof {
            assert(children(node.view())[i as int] == fields@[i as int].view());
        }
        walk(&fields[i].value, below.as_str(), root, depth + 1, range, out);
        proof {
            assert(field_views(out@) =~= before + leaves_of(
                node.view(),
                i + 1,
                path@,
                root as int,
                depth as int,
                declared,
            ));
        }
        i = i + 1;
    }
}

// ---------------------------------------------------------------------------
// Finding a leaf
// ---------------------------------------------------------------------------

/// Which field of `node` a segment of a path names: a field of that name, or of
/// that number in a tuple struct.
pub open spec fn child_at(node: NodeView, segment: Seq<char>) -> Option<int> {
    match node {
        NodeView::Struct(f) => first_where(f, named(segment)),
        NodeView::TupleStruct(f) => match number(segment) {
            Some(n) => if n < f.len() {
                Some(n as int)
            } else {
                None
            },
            None => None,
        },
        _ => None,
    }
}

/// What a path leads to, and the range that is declared on the way.
pub open spec fn resolved(
    node: NodeView,
    segments: Seq<Seq<char>>,
    declared: Option<FieldRange>,
) -> Option<(NodeView, Option<FieldRange>)>
    decreases segments.len(),
{
    if segments.len() == 0 {
        Some((node, declared))
    } else {
        match child_at(node, segments[0]) {
            Some(i) => {
                let field = children(node)[i];
                resolved(field.value, segments.drop_first(), inherited(field.range, declared))
            },
            None => None,
        }
    }
}

/// The range that an edit of `node` is held to.
pub open spec fn range_for(node: NodeView, declared: Option<FieldRange>) -> FieldRange {
    match node {
        NodeView::Leaf(s) => or_range(declared, scalar_range(s)),
        _ => or_range(declared, default_range_spec()),
    }
}

/// The field that a segment names, and the fields that it is one of.
fn find_child<'a>(node: &'a Node, segment: &String) -> (r: Option<(&'a Vec<Field>, usize)>)
    ensures
        match r {
            Some((fields, i)) => i < fields@.len() && children(node.view()) == fields_view(fields@)
                && child_at(node.view(), segment@) == Some(i as int),
            None => child_at(node.view(), segment@) is None,
        },
{
    proof {
        node_fields(*node);
    }
    match node {
        Node::Struct(fields) => match find_named(fields, segment) {
            Some(i) => Some((fields, i)),
            None => None,
        },
        Node::TupleStruct(fields) => {
            let count: usize = fields.len();
            match parse_index(segment.as_str()) {
                Some(i) => if i < count {
                    Some((fields, i))
                } else {
                    None
                },
                None => None,
            }
        },
        _ => None,
    }
}

/// Follow a path down from `node`.
fn resolve<'a>(node: &'a Node, segments: &Vec<String>) -> (r: Option<(&'a Node, FieldRange)>)
    ensures
        match r {
            Some((leaf, range)) => resolved(node.view(), views(segments@), None) matches Some(
                found,
            ) && found.0 == leaf.view() && range == range_for(found.0, found.1),
            None => resolved(node.view(), views(segments@), None) is None,
        },
{
    let mut current: &Node = node;
    let mut declared: Option<FieldRange> = None;
    let mut i: usize = 0;
    let ghost all = views(segments@);
    proof {
        assert(all.skip(0) =~= all);
    }
    while i < segments.len()
        invariant
            i <= segments@.len(),
            all == views(segments@),
            resolved(node.view(), all, None) == resolved(
                current.view(),
                all.skip(i as int),
                declared,
            ),
        decreases segments@.len() - i,
    {
        proof {
            assert(all.skip(i as int)[0] == segments@[i as int]@);
            assert(all.skip(i as int).drop_first() =~= all.skip(i + 1));
        }
        match find_child(current, &segments[i]) {
            Some((fields, at)) => {
                proof {
                    assert(children(current.view())[at as int] == fields@[at as int].view());
                }
                declared = match fields[at].range {
                    Some(r) => Some(r),
                    None => declared,
                };
                current = &fields[at].value;
            },
            None => {
                return None;
            },
        }
        i = i + 1;
    }
    proof {
        assert(all.skip(i as int).len() == 0);
    }
    let fallback: FieldRange = match current {
        Node::Leaf(s) => leaf_of(*s).1,
        _ => default_range(),
    };
    let range: FieldRange = match declared {
        Some(r) => r,
        None => fallback,
    };
    Some((current, range))
}

// ---------------------------------------------------------------------------
// Writing a leaf
// ---------------------------------------------------------------------------

/// A whole number moved into a range. It goes through double precision on the
/// way, which rounds what is too large to be exact there; a bound that is no whole
/// number counts without its fraction.
pub open spec fn held(v: i64, range: FieldRange) -> int {
    let rounded = saturated(through_double(v));
    if rounded < as_whole(range.min) {
        as_whole(range.min)
    } else if rounded > as_whole(range.max) {
        as_whole(range.max)
    } else {
        rounded
    }
}

/// A whole number moved between two others.
pub open spec fn between(v: int, low: int, high: int) -> int {
    if v < low {
        low
    } else if v > high {
        high
    } else {
        v
    }
}

/// A whole number stored in a leaf: moved to where its type can hold it.
pub open spec fn stored(s: Scalar, v: int) -> Option<Scalar> {
    match s {
        Scalar::U8(_) => Some(Scalar::U8(between(v, 0, u8::MAX as int) as u8)),
        Scalar::U32(_) => Some(Scalar::U32(between(v, 0, u32::MAX as int) as u32)),
        Scalar::I32(_) => Some(Scalar::I32(between(v, i32::MIN as int, i32::MAX as int) as i32)),
        Scalar::U64(_) => Some(Scalar::U64(between(v, 0, i64::MAX as int) as u64)),
        Scalar::Usize(_) => Some(Scalar::Usize(between(v, 0, i64::MAX as int) as u64 as usize)),
        Scalar::I64(_) => Some(Scalar::I64(v as i64)),
        _ => None,
    }
}

/// Variants of a given name.
pub open spec fn called(name: Seq<char>) -> spec_fn(VariantView) -> bool {
    |v: VariantView| v.name == name
}

/// Whether writing `value` compares it with the range: numbers are compared,
/// except the infinite ones and those that are none.
pub open spec fn compares(value: ValueView) -> bool {
    match value {
        ValueView::Float(v) => magnitude(v) < INFINITY_BITS,
        ValueView::Int(_) => true,
        _ => false,
    }
}

/// What a leaf becomes when `value` is written into it, and the value that
/// landed.
pub open spec fn leaf_written(node: NodeView, value: ValueView, range: FieldRange) -> Result<
    (NodeView, ValueView),
    TweakError,
> {
    match value {
        ValueView::Float(v) => match node {
            NodeView::Leaf(Scalar::Float(_)) => {
                let landed = if magnitude(v) < INFINITY_BITS {
                    clamped(v, range.min, range.max)
                } else {
                    range.min
                };
                Ok((NodeView::Leaf(Scalar::Float(landed)), ValueView::Float(landed)))
            },
            _ => Err(TweakError::WrongKind),
        },
        ValueView::Bool(v) => match node {
            NodeView::Leaf(Scalar::Bool(_)) => Ok((NodeView::Leaf(Scalar::Bool(v)), value)),
            _ => Err(TweakError::WrongKind),
        },
        ValueView::Int(v) => match node {
            NodeView::Leaf(s) => match stored(s, held(v, range)) {
                Some(t) => Ok((NodeView::Leaf(t), scalar_value(t))),
                None => Err(TweakError::WrongKind),
            },
            _ => Err(TweakError::WrongKind),
        },
        ValueView::Choice(name) => match node {
            NodeView::Enum { variants, current: _ } => if all_unit(variants) && first_where(
                variants,
                called(name),
            ) is Some {
                Ok((NodeView::Enum { variants, current: name }, value))
            } else {
                Err(TweakError::WrongKind)
            },
            _ => Err(TweakError::WrongKind),
        },
    }
}

/// Store `v` in whichever width of integer the leaf is.
fn write_int(s: Scalar, v: i64) -> (r: Option<Scalar>)
    ensures
        r == stored(s, v as int),
{
    match s {
        Scalar::U8(_) => Some(
            Scalar::U8(
                if v < 0 {
                    0
                } else if v > u8::MAX as i64 {
                    u8::MAX
                } else {
                    v as u8
                },
            ),
        ),
        Scalar::U32(_) => Some(
            Scalar::U32(
                if v < 0 {
                    0
                } else if v > u32::MAX as i64 {
                    u32::MAX
                } else {
                    v as u32
                },
            ),
        ),
        Scalar::I32(_) => Some(
            Scalar::I32(
                if v < i32::MIN as i64 {
                    i32::MIN
                } else if v > i32::MAX as i64 {
                    i32::MAX
                } else {
                    v as i32
                },
            ),
        ),
        Scalar::U64(_) => {
            let size: u64 = if v < 0 {
                0
            } else {
                v as u64
            };
            Some(Scalar::U64(size))
        },
        Scalar::Usize(_) => {
            let size: u64 = if v < 0 {
                0
            } else {
                v as u64
            };
            Some(Scalar::Usize(size as usize))
        },
        Scalar::I64(_) => Some(Scalar::I64(v)),
        _ => None,
    }
}

/// Whether there is a variant of a name.
fn has_variant(variants: &Vec<Variant>, name: &String) -> (r: bool)
    ensures
        r == (first_where(variants_view(variants@), called(name@)) is Some),
{
    let ghost seen = variants_view(variants@);
    let mut i: usize = 0;
    while i < variants.len()
        invariant
            i <= variants@.len(),
            seen == variants_view(variants@),
            none_before(seen, called(name@), i as int),
        decreases variants@.len() - i,
    {
        if variants[i].name == *name {
            proof {
                first_is(seen, called(name@), i as int);
            }
            return true;
        }
        i = i + 1;
    }
    proof {
        first_is_none(seen, called(name@));
    }
    false
}

/// A whole number moved into a range.
fn hold(v: i64, range: FieldRange) -> (r: i64)
    requires
        in_order(range),
    ensures
        r == held(v, range),
{
    let rounded: i64 = round_through_double(v);
    let low: i64 = range.min.to_i64();
    let high: i64 = range.max.to_i64();
    if rounded < low {
        low
    } else if rounded > high {
        high
    } else {
        rounded
    }
}

/// Write `value` into the leaf that a path led to, clamped.
fn write_leaf(leaf: &mut Node, value: TweakValue, range: FieldRange) -> (r: Result<
    TweakValue,
    TweakError,
>)
    requires
        compares(value@) ==> in_order(range),
    ensures
        match leaf_written(old(leaf).view(), value@, range) {
            Ok((node, landed)) => r is Ok && r->Ok_0@ == landed && final(leaf).view() == node,
            Err(e) => r is Err && r->Err_0 == e && *final(leaf) == *old(leaf),
        },
{
    match value {
        TweakValue::Float(v) => match leaf {
            Node::Leaf(Scalar::Float(slot)) => {
                let landed: F32 = if v.is_finite() {
                    range.clamp(v)
                } else {
                    range.min
                };
                *slot = landed;
                Ok(TweakValue::Float(landed))
            },
            _ => Err(TweakError::WrongKind),
        },
        TweakValue::Bool(v) => match leaf {
            Node::Leaf(Scalar::Bool(slot)) => {
                *slot = v;
                Ok(TweakValue::Bool(v))
            },
            _ => Err(TweakError::WrongKind),
        },
        TweakValue::Int(v) => match leaf {
            Node::Leaf(slot) => match write_int(*slot, hold(v, range)) {
                Some(s) => {
                    *slot = s;
                    Ok(leaf_of(s).0)
                },
                None => Err(TweakError::WrongKind),
            },
            _ => Err(TweakError::WrongKind),
        },
        TweakValue::Choice(name) => match leaf {
            Node::Enum { variants, current } => if no_data(variants) && has_variant(
                variants,
                &name,
            ) {
                *current = name.clone();
                Ok(TweakValue::Choice(name))
            } else {
                Err(TweakError::WrongKind)
            },
            _ => Err(TweakError::WrongKind),
        },
    }
}

/// `node` with another value in one of its fields.
pub open spec fn with_child(node: NodeView, i: int, value: NodeView) -> NodeView {
    match node {
        NodeView::Struct(f) => NodeView::Struct(
            f.update(i, FieldView { name: f[i].name, range: f[i].range, value }),
        ),
        NodeView::TupleStruct(f) => NodeView::TupleStruct(
            f.update(i, FieldView { name: f[i].name, range: f[i].range, value }),
        ),
        _ => node,
    }
}

/// What `node` becomes when `value` is written to what a path leads to, and the
/// value that landed.
pub open spec fn written(
    node: NodeView,
    segments: Seq<Seq<char>>,
    declared: Option<FieldRange>,
    value: ValueView,
) -> Result<(NodeView, ValueView), TweakError>
    decreases segments.len(),
{
    if segments.len() == 0 {
        leaf_written(node, value, range_for(node, declared))
    } else {
        match child_at(node, segments[0]) {
            Some(i) => {
                let field = children(node)[i];
                match written(
                    field.value,
                    segments.drop_first(),
                    inherited(field.range, declared),
                    value,
                ) {
                    Ok((child, landed)) => Ok((with_child(node, i, child), landed)),
                    Err(e) => Err(e),
                }
            },
            None => Err(TweakError::NoSuchPath),
        }
    }
}

/// Whether a write meets bounds in order: it does not compare, or leads nowhere,
/// or to a leaf whose range is in order.
pub open spec fn bounds_hold(
    node: NodeView,
    segments: Seq<Seq<char>>,
    declared: Option<FieldRange>,
    value: ValueView,
) -> bool {
    compares(value) ==> match resolved(node, segments, declared) {
        Some((leaf, range)) => in_order(range_for(leaf, range)),
        None => true,
    }
}

/// Write `value` to what the path leads to from `node`.
fn write_at(
    node: &mut Node,
    segments: &Vec<String>,
    k: usize,
    declared: Option<FieldRange>,
    value: TweakValue,
) -> (r: Result<TweakValue, TweakError>)
    requires
        k <= segments@.len(),
        bounds_hold(old(node).view(), views(segments@).skip(k as int), declared, value@),
    ensures
        match written(old(node).view(), views(segments@).skip(k as int), declared, value@) {
            Ok((after, landed)) => r is Ok && r->Ok_0@ == landed && final(node).view() == after,
            Err(e) => r is Err && r->Err_0 == e && final(node).view() == old(node).view(),
        },
    decreases segments@.len() - k,
{
    let ghost before = *node;
    let ghost left = views(segments@).skip(k as int);
    proof {
        node_fields(before);
    }
    if k == segments.len() {
        let range: FieldRange = match declared {
            Some(r) => r,
            None => match &*node {
                Node::Leaf(s) => leaf_of(*s).1,
                _ => default_range(),
            },
        };
        return write_leaf(node, value, range);
    }
    proof {
        assert(left[0] == segments@[k as int]@);
        assert(left.drop_first() =~= views(segments@).skip(k + 1));
    }
    let i: usize = match find_child(&*node, &segments[k]) {
        Some((_, i)) => i,
        None => {
            return Err(TweakError::NoSuchPath);
        },
    };
    match node {
        Node::Struct(fields) => {
            let range: Option<FieldRange> = match fields[i].range {
                Some(r) => Some(r),
                None => declared,
            };
            let ghost all = fields@;
            proof {
                assert(children(before.view())[i as int] == all[i as int].view());
            }
            let result = write_at(&mut fields[i].value, segments, k + 1, range, value);
            proof {
                assert(fields_view(fields@) =~= fields_view(all).update(
                    i as int,
                    fields@[i as int].view(),
                ));
                assert(fields_view(all).update(i as int, all[i as int].view()) =~= fields_view(all));
                node_fields(Node::Struct(*fields));
            }
            result
        },
        Node::TupleStruct(fields) => {
            let range: Option<FieldRange> = match fields[i].range {
                Some(r) => Some(r),
                None => declared,
            };
            let ghost all = fields@;
            proof {
                assert(children(before.view())[i as int] == all[i as int].view());
            }
            let result = write_at(&mut fields[i].value, segments, k + 1, range, value);
            proof {
                assert(fields_view(fields@) =~= fields_view(all).update(
                    i as int,
                    fields@[i as int].view(),
                ));
                assert(fields_view(all).update(i as int, all[i as int].view()) =~= fields_view(all));
                node_fields(Node::TupleStruct(*fields));
            }
            result
        },
        _ => Err(TweakError::NoSuchPath),
    }
}

// ---------------------------------------------------------------------------
// The world
// ---------------------------------------------------------------------------

/// How a root is reached in a world: a resource of a type, or the component of a
/// type on one entity.
#[derive(Clone, Copy, Debug, PartialEq, Eq, Structural)]
pub enum Reach {
    Resource(u64),
    Component { kind: u64, entity: u64 },
}

/// A value in the world, and how it is reached.
pub struct Target {
    pub reach: Reach,
    pub value: Node,
}

/// One registered root.
pub struct TweakRoot {
    /// The first segment of its paths, chosen by the game.
    pub name: String,
    pub reach: Reach,
}

impl View for TweakRoot {
    type V = (Seq<char>, Reach);

    open spec fn view(&self) -> (Seq<char>, Reach) {
        (self.name@, self.reach)
    }
}

/// Every root that a game has opted in, and what each of their leaves was worth
/// when it was registered.
pub struct Tweakables {
    roots: Vec<TweakRoot>,
    authored: PathMap<TweakValue>,
}

/// The registered roots and the values that they were registered with.
pub struct TweakablesView {
    pub roots: Seq<(Seq<char>, Reach)>,
    pub authored: Map<Seq<char>, ValueView>,
}

/// Every leaf that a run has moved off its authored value, by path.
pub struct TweakOverrides {
    pub values: PathMap<TweakValue>,
}

/// What the tunables of a world are: the values that roots may name, the roots,
/// and the overrides. Either of the last two may be missing.
pub struct World {
    pub targets: Vec<Target>,
    pub tweakables: Option<Tweakables>,
    pub overrides: Option<TweakOverrides>,
}

/// The state of a world.
pub struct WorldView {
    pub targets: Seq<(Reach, NodeView)>,
    pub tweakables: Option<TweakablesView>,
    pub overrides: Option<Map<Seq<char>, ValueView>>,
}

/// The values of a world, as what they are.
pub open spec fn targets_view(s: Seq<Target>) -> Seq<(Reach, NodeView)> {
    Seq::new(s.len(), |i: int| (s[i].reach, s[i].value.view()))
}

/// The roots, as what they are.
pub open spec fn roots_view(s: Seq<TweakRoot>) -> Seq<(Seq<char>, Reach)> {
    Seq::new(s.len(), |i: int| s[i]@)
}

/// Values that are reached in a given way.
pub open spec fn reached(reach: Reach) -> spec_fn((Reach, NodeView)) -> bool {
    |t: (Reach, NodeView)| t.0 == reach
}

/// Roots of a given name.
pub open spec fn root_called(name: Seq<char>) -> spec_fn((Seq<char>, Reach)) -> bool {
    |r: (Seq<char>, Reach)| r.0 == name
}

/// No two roots have one name.
pub open spec fn distinct_names(roots: Seq<(Seq<char>, Reach)>) -> bool {
    forall|i: int, j: int|
        0 <= i < j < roots.len() ==> #[trigger] roots[i].0 != #[trigger] roots[j].0
}

/// The value that a path names in a world: which, and the rest of the path.
pub open spec fn located(
    roots: Seq<(Seq<char>, Reach)>,
    targets: Seq<(Reach, NodeView)>,
    path: Seq<char>,
) -> Result<int, TweakError> {
    if path.len() == 0 {
        Err(TweakError::NoSuchPath)
    } else {
        match first_where(roots, root_called(before_dot(path))) {
            Some(i) => match first_where(targets, reached(roots[i].1)) {
                Some(t) => Ok(t),
                None => Err(TweakError::RootAbsent),
            },
            None => Err(TweakError::NoSuchPath),
        }
    }
}

/// The segments of a path behind its root's name.
pub open spec fn segments_of(path: Seq<char>) -> Seq<Seq<char>> {
    pieces(after_dot(path))
}

/// The value of the leaf that a path names.
pub open spec fn got(
    roots: Seq<(Seq<char>, Reach)>,
    targets: Seq<(Reach, NodeView)>,
    path: Seq<char>,
) -> Option<ValueView> {
    match located(roots, targets, path) {
        Ok(t) => match resolved(targets[t].1, segments_of(path), None) {
            Some((leaf, _)) => value_of(leaf),
            None => None,
        },
        Err(_) => None,
    }
}

/// What the values become when one is written to the leaf that a path names, and
/// the value that landed.
pub open spec fn set_in(
    roots: Seq<(Seq<char>, Reach)>,
    targets: Seq<(Reach, NodeView)>,
    path: Seq<char>,
    value: ValueView,
) -> Result<(Seq<(Reach, NodeView)>, ValueView), TweakError> {
    match located(roots, targets, path) {
        Ok(t) => match written(targets[t].1, segments_of(path), None, value) {
            Ok((node, landed)) => Ok((targets.update(t, (targets[t].0, node)), landed)),
            Err(e) => Err(e),
        },
        Err(e) => Err(e),
    }
}

/// Whether a write to a path meets bounds in order.
pub open spec fn bounds_ok(
    roots: Seq<(Seq<char>, Reach)>,
    targets: Seq<(Reach, NodeView)>,
    path: Seq<char>,
    value: ValueView,
) -> bool {
    match located(roots, targets, path) {
        Ok(t) => bounds_hold(targets[t].1, segments_of(path), None, value),
        Err(_) => true,
    }
}

/// The leaves of one root, as many as it may contribute. A root that names nothing
/// in the world has none.
pub open spec fn root_fields(
    roots: Seq<(Seq<char>, Reach)>,
    targets: Seq<(Reach, NodeView)>,
    i: int,
) -> Seq<TweakFieldView> {
    match first_where(targets, reached(roots[i].1)) {
        Some(t) => {
            let all = leaves(targets[t].1, roots[i].0, i, 0, None);
            if all.len() > MAX_FIELDS_PER_ROOT {
                all.take(MAX_FIELDS_PER_ROOT as int)
            } else {
                all
            }
        },
        None => Seq::empty(),
    }
}

/// The leaves of the first `n` roots.
pub open spec fn fields_under(
    roots: Seq<(Seq<char>, Reach)>,
    targets: Seq<(Reach, NodeView)>,
    n: int,
) -> Seq<TweakFieldView>
    decreases n,
{
    if n <= 0 {
        Seq::empty()
    } else {
        fields_under(roots, targets, n - 1) + root_fields(roots, targets, n - 1)
    }
}

/// What came of an edit.
pub open spec fn outcome(r: Result<TweakValue, TweakError>) -> Result<ValueView, TweakError> {
    match r {
        Ok(v) => Ok(v@),
        Err(e) => Err(e),
    }
}

impl World {
    /// The maps are in order, and no two roots have one name.
    pub open spec fn wf(&self) -> bool {
        &&& self.tweakables matches Some(t) ==> t.wf()
        &&& self.overrides matches Some(o) ==> o.values.wf()
    }

    pub open spec fn view(&self) -> WorldView {
        WorldView {
            targets: targets_view(self.targets@),
            tweakables: match self.tweakables {
                Some(t) => Some(t@),
                None => None,
            },
            overrides: match self.overrides {
                Some(o) => Some(o.values@),
                None => None,
            },
        }
    }

    /// The value that is reached in a given way.
    fn find(&self, reach: Reach) -> (r: Option<usize>)
        ensures
            match r {
                Some(i) => i < self.targets@.len() && first_where(self@.targets, reached(reach))
                    == Some(i as int),
                None => first_where(self@.targets, reached(reach)) is None,
            },
    {
        let ghost seen = self@.targets;
        let mut i: usize = 0;
        while i < self.targets.len()
            invariant
                i <= self.targets@.len(),
                seen == targets_view(self.targets@),
                none_before(seen, reached(reach), i as int),
            decreases self.targets@.len() - i,
        {
            if self.targets[i].reach == reach {
                proof {
                    first_is(seen, reached(reach), i as int);
                }
                return Some(i);
            }
            i = i + 1;
        }
        proof {
            first_is_none(seen, reached(reach));
        }
        None
    }
}

/// A path in two: the root's name, and the rest behind the dot.
fn split_root(path: &str) -> (r: Option<(String, String)>)
    ensures
        match r {
            Some((root, rest)) => path@.len() > 0 && root@ == before_dot(path@) && rest@
                == after_dot(path@),
            None => path@.len() == 0,
        },
{
    let n: usize = path.unicode_len();
    if n == 0 {
        return None;
    }
    let dot: usize = find_dot(path);
    let root: String = path.substring_char(0, dot).to_owned();
    let rest: String = if dot < n {
        path.substring_char(dot + 1, n).to_owned()
    } else {
        String::new()
    };
    proof {
        assert(root@ =~= before_dot(path@));
        assert(rest@ =~= after_dot(path@));
    }
    Some((root, rest))
}

impl Tweakables {
    pub closed spec fn view(&self) -> TweakablesView {
        TweakablesView { roots: roots_view(self.roots@), authored: self.authored@ }
    }

    /// The map is in order, and no two roots have one name.
    pub closed spec fn wf(&self) -> bool {
        self.authored.wf() && distinct_names(roots_view(self.roots@))
    }

    /// No roots.
    pub fn new() -> (r: Tweakables)
        ensures
            r.wf(),
            r@.roots.len() == 0,
            r@.authored == Map::<Seq<char>, ValueView>::empty(),
    {
        Tweakables { roots: Vec::new(), authored: PathMap::new() }
    }

    /// The registered roots, in the order of their registration.
    pub fn roots(&self) -> (r: &Vec<TweakRoot>)
        ensures
            roots_view(r@) == self@.roots,
    {
        &self.roots
    }

    /// The value that a path had when its root was registered.
    pub fn authored(&self, path: &str) -> (r: Option<&TweakValue>)
        requires
            self.wf(),
        ensures
            match r {
                Some(v) => self@.authored.contains_key(path@) && self@.authored[path@] == v@,
                None => !self@.authored.contains_key(path@),
            },
    {
        self.authored.get(path)
    }

    /// The first root of a name.
    fn root_named(&self, name: &String) -> (r: Option<usize>)
        ensures
            match r {
                Some(i) => i < self.roots@.len() && first_where(self@.roots, root_called(name@))
                    == Some(i as int),
                None => first_where(self@.roots, root_called(name@)) is None,
            },
    {
        let ghost seen = self@.roots;
        let mut i: usize = 0;
        while i < self.roots.len()
            invariant
                i <= self.roots@.len(),
                seen == roots_view(self.roots@),
                none_before(seen, root_called(name@), i as int),
            decreases self.roots@.len() - i,
        {
            if self.roots[i].name == *name {
                proof {
                    first_is(seen, root_called(name@), i as int);
                }
                return Some(i);
            }
            i = i + 1;
        }
        proof {
            first_is_none(seen, root_called(name@));
        }
        None
    }

    /// Every leaf under every root, depth first, in the order of registration.
    pub fn fields(&self, world: &World) -> (r: Vec<TweakField>)
        ensures
            field_views(r@) == fields_under(
                self@.roots,
                world@.targets,
                self@.roots.len() as int,
            ),
    {
        let mut out: Vec<TweakField> = Vec::new();
        let mut i: usize = 0;
        proof {
            assert(field_views(out@) =~= Seq::empty());
        }
        while i < self.roots.len()
            invariant
                i <= self.roots@.len() == self@.roots.len(),
                self@.roots == roots_view(self.roots@),
                field_views(out@) == fields_under(self@.roots, world@.targets, i as int),
            decreases self.roots@.len() - i,
        {
            let ghost before = field_views(out@);
            let root: &TweakRoot = &self.roots[i];
            let start: usize = out.len();
            match world.find(root.reach) {
                Some(t) => {
                    walk(&world.targets[t].value, root.name.as_str(), i, 0, None, &mut out);
                    let ghost all = leaves(
                        world@.targets[t as int].1,
                        self@.roots[i as int].0,
                        i as int,
                        0,
                        None,
                    );
                    proof {
                        assert(field_views(out@) == before + all);
                        assert(field_views(out@).len() == out@.len());
                        assert(before.len() == start);
                    }
                    if out.len() - start > MAX_FIELDS_PER_ROOT {
                        let ghost full = out@;
                        out.truncate(start + MAX_FIELDS_PER_ROOT);
                        proof {
                            assert(field_views(out@) =~= before + all.take(
                                MAX_FIELDS_PER_ROOT as int,
                            )) by {
                                let cut = before + all.take(MAX_FIELDS_PER_ROOT as int);
                                assert forall|j: int| 0 <= j < out@.len() implies field_views(
                                    out@,
                                )[j] == cut[j] by {
                                    assert(field_views(full)[j] == (before + all)[j]);
                                }
                            }
                        }
                    }
                },
                None => {
                    proof {
                        assert(before =~= before + Seq::<TweakFieldView>::empty());
                    }
                },
            }
            i = i + 1;
        }
        out
    }

    /// Read one leaf.
    pub fn get(&self, world: &World, path: &str) -> (r: Option<TweakValue>)
        ensures
            match r {
                Some(v) => got(self@.roots, world@.targets, path@) == Some(v@),
                None => got(self@.roots, world@.targets, path@) is None,
            },
    {
        let (root, rest) = match split_root(path) {
            Some(parts) => parts,
            None => {
                return None;
            },
        };
        let index: usize = match self.root_named(&root) {
            Some(i) => i,
            None => {
                return None;
            },
        };
        let at: usize = match world.find(self.roots[index].reach) {
            Some(t) => t,
            None => {
                return None;
            },
        };
        let segments: Vec<String> = split_dots(rest.as_str());
        match resolve(&world.targets[at].value, &segments) {
            Some((leaf, _)) => leaf_value(leaf),
            None => None,
        }
    }

    /// Write one leaf, clamped to its range. What is returned is the value that
    /// landed.
    pub fn set(&self, world: &mut World, path: &str, value: TweakValue) -> (r: Result<
        TweakValue,
        TweakError,
    >)
        requires
            bounds_ok(self@.roots, old(world)@.targets, path@, value@),
        ensures
            match set_in(self@.roots, old(world)@.targets, path@, value@) {
                Ok((targets, landed)) => outcome(r) == Ok::<ValueView, TweakError>(landed)
                    && final(world)@.targets == targets,
                Err(e) => outcome(r) == Err::<ValueView, TweakError>(e) && final(world)@.targets
                    == old(world)@.targets,
            },
            final(world).tweakables == old(world).tweakables,
            final(world).overrides == old(world).overrides,
    {
        let (root, rest) = match split_root(path) {
            Some(parts) => parts,
            None => {
                return Err(TweakError::NoSuchPath);
            },
        };
        let index: usize = match self.root_named(&root) {
            Some(i) => i,
            None => {
                return Err(TweakError::NoSuchPath);
            },
        };
        let at: usize = match world.find(self.roots[index].reach) {
            Some(t) => t,
            None => {
                return Err(TweakError::RootAbsent);
            },
        };
        let segments: Vec<String> = split_dots(rest.as_str());
        let ghost before = world@.targets;
        let ghost all = world.targets@;
        proof {
            assert(views(segments@).skip(0) =~= views(segments@));
        }
        let result = write_at(&mut world.targets[at].value, &segments, 0, None, value);
        proof {
            let after = world.targets@[at as int].value.view();
            assert(world@.targets =~= before.update(at as int, (before[at as int].0, after)));
            assert(before.update(at as int, before[at as int]) =~= before);
        }
        result
    }
}

// ---------------------------------------------------------------------------
// Registration
// ---------------------------------------------------------------------------

/// No roots.
pub open spec fn no_roots() -> TweakablesView {
    TweakablesView { roots: Seq::empty(), authored: Map::empty() }
}

/// A map with the values of the first `n` leaves in it.
pub open spec fn with_authored(
    m: Map<Seq<char>, ValueView>,
    fields: Seq<TweakFieldView>,
    n: int,
) -> Map<Seq<char>, ValueView>
    decreases n,
{
    if n <= 0 {
        m
    } else {
        with_authored(m, fields, n - 1).insert(fields[n - 1].path, fields[n - 1].value)
    }
}

/// The roots with one more, and the values of its leaves. A name that is taken is
/// refused.
pub open spec fn with_root(
    t: TweakablesView,
    targets: Seq<(Reach, NodeView)>,
    name: Seq<char>,
    reach: Reach,
) -> TweakablesView {
    if first_where(t.roots, root_called(name)) is Some {
        t
    } else {
        TweakablesView {
            roots: t.roots.push((name, reach)),
            authored: match first_where(targets, reached(reach)) {
                Some(at) => {
                    let all = leaves(targets[at].1, name, t.roots.len() as int, 0, None);
                    with_authored(t.authored, all, all.len() as int)
                },
                None => t.authored,
            },
        }
    }
}

/// The tunables of a world, where it has any, else no roots.
pub open spec fn tunables(w: WorldView) -> TweakablesView {
    match w.tweakables {
        Some(t) => t,
        None => no_roots(),
    }
}

/// A world with one more root.
pub open spec fn registered(w: WorldView, name: Seq<char>, reach: Reach) -> WorldView {
    WorldView {
        targets: w.targets,
        tweakables: Some(with_root(tunables(w), w.targets, name, reach)),
        overrides: w.overrides,
    }
}

/// Put the registry and the overrides in the world, where they are missing.
pub fn install(world: &mut World)
    requires
        old(world).wf(),
    ensures
        final(world).wf(),
        final(world)@.targets == old(world)@.targets,
        final(world)@.tweakables == Some(tunables(old(world)@)),
        final(world)@.overrides == Some(
            match old(world)@.overrides {
                Some(o) => o,
                None => Map::<Seq<char>, ValueView>::empty(),
            },
        ),
{
    if world.tweakables.is_none() {
        let fresh = Tweakables::new();
        proof {
            assert(fresh@.roots =~= no_roots().roots);
        }
        world.tweakables = Some(fresh);
    }
    if world.overrides.is_none() {
        world.overrides = Some(TweakOverrides::new());
    }
}

/// Make a resource tunable under a name, and note what it holds now.
pub fn register_resource(world: &mut World, name: String, kind: u64)
    requires
        old(world).wf(),
    ensures
        final(world).wf(),
        final(world)@ == registered(old(world)@, name@, Reach::Resource(kind)),
{
    push_root(world, name, Reach::Resource(kind));
}

/// Make the component of one entity tunable under a name, and note what it holds
/// now.
pub fn register_component(world: &mut World, name: String, kind: u64, entity: u64)
    requires
        old(world).wf(),
    ensures
        final(world).wf(),
        final(world)@ == registered(old(world)@, name@, Reach::Component { kind, entity }),
{
    push_root(world, name, Reach::Component { kind, entity });
}

/// Put the values of the listed leaves in a map.
fn note_all(authored: &mut PathMap<TweakValue>, fields: &Vec<TweakField>)
    requires
        old(authored).wf(),
    ensures
        final(authored).wf(),
        final(authored)@ == with_authored(
            old(authored)@,
            field_views(fields@),
            fields@.len() as int,
        ),
{
    let ghost start = authored@;
    let mut i: usize = 0;
    while i < fields.len()
        invariant
            i <= fields@.len(),
            authored.wf(),
            authored@ == with_authored(start, field_views(fields@), i as int),
        decreases fields@.len() - i,
    {
        proof {
            assert(field_views(fields@)[i as int] == fields@[i as int]@);
        }
        authored.insert(fields[i].path.clone(), fields[i].value.clone());
        i = i + 1;
    }
}

/// Refuse a name that is taken; else add the root and note the values of its
/// leaves.
fn push_root(world: &mut World, name: String, reach: Reach)
    requires
        old(world).wf(),
    ensures
        final(world).wf(),
        final(world)@ == registered(old(world)@, name@, reach),
{
    let mut tweaks: Tweakables = match world.tweakables.take() {
        Some(t) => t,
        None => {
            let fresh = Tweakables::new();
            proof {
                assert(fresh@.roots =~= no_roots().roots);
            }
            fresh
        },
    };
    let ghost before = tweaks@;
    proof {
        assert(before == tunables(old(world)@));
    }
    if tweaks.root_named(&name).is_none() {
        let index: usize = tweaks.roots.len();
        if let Some(t) = world.find(reach) {
            let mut fields: Vec<TweakField> = Vec::new();
            walk(&world.targets[t].value, name.as_str(), index, 0, None, &mut fields);
            proof {
                let all = leaves(world@.targets[t as int].1, name@, index as int, 0, None);
                assert(field_views(Seq::<TweakField>::empty()) + all =~= all);
                assert(field_views(fields@) == all);
                assert(fields@.len() == all.len());
            }
            note_all(&mut tweaks.authored, &fields);
        }
        proof {
            first_means(before.roots, root_called(name@));
            assert(none_before(before.roots, root_called(name@), before.roots.len() as int));
        }
        let root = TweakRoot { name, reach };
        let ghost seen = root@;
        tweaks.roots.push(root);
        proof {
            assert(tweaks@.roots =~= before.roots.push(seen));
            assert forall|i: int, j: int| 0 <= i < j < tweaks@.roots.len() implies #[trigger]
            tweaks@.roots[i].0 != #[trigger] tweaks@.roots[j].0 by {
                if j == before.roots.len() {
                    assert(!root_called(seen.0)(before.roots[i]));
                }
            }
        }
    }
    world.tweakables = Some(tweaks);
}

// ---------------------------------------------------------------------------
// Overrides
// ---------------------------------------------------------------------------

/// The values after the first `n` entries were written in turn, and how many of
/// them landed.
pub open spec fn applied(
    roots: Seq<(Seq<char>, Reach)>,
    targets: Seq<(Reach, NodeView)>,
    entries: Seq<(Seq<char>, ValueView)>,
    n: int,
) -> (Seq<(Reach, NodeView)>, int)
    decreases n,
{
    if n <= 0 {
        (targets, 0)
    } else {
        let (before, count) = applied(roots, targets, entries, n - 1);
        match set_in(roots, before, entries[n - 1].0, entries[n - 1].1) {
            Ok((after, _)) => (after, count + 1),
            Err(_) => (before, count),
        }
    }
}

/// The range that an edit behind a path is held to, where the path leads
/// anywhere.
pub open spec fn held_range(
    node: NodeView,
    segments: Seq<Seq<char>>,
    declared: Option<FieldRange>,
) -> Option<FieldRange> {
    match resolved(node, segments, declared) {
        Some((leaf, range)) => Some(range_for(leaf, range)),
        None => None,
    }
}

/// A node with another value in a field has the same fields by name and number.
pub proof fn same_children(node: NodeView, i: int, value: NodeView, segment: Seq<char>)
    requires
        0 <= i < children(node).len(),
    ensures
        child_at(with_child(node, i, value), segment) == child_at(node, segment),
        children(with_child(node, i, value)).len() == children(node).len(),
        forall|j: int|
            0 <= j < children(node).len() ==> {
                let new = #[trigger] children(with_child(node, i, value))[j];
                let old_one = children(node)[j];
                new.name == old_one.name && new.range == old_one.range && new.value == (if j == i {
                    value
                } else {
                    old_one.value
                })
            },
{
    if let NodeView::Struct(f) = node {
        let g = children(with_child(node, i, value));
        first_means(f, named(segment));
        match first_where(f, named(segment)) {
            Some(k) => {
                assert forall|j: int| 0 <= j < k implies !named(segment)(#[trigger] g[j]) by {
                    assert(!named(segment)(f[j]));
                }
                assert(named(segment)(g[k]));
                first_is(g, named(segment), k);
            },
            None => {
                assert forall|j: int| 0 <= j < g.len() implies !named(segment)(
                    #[trigger] g[j],
                ) by {
                    assert(!named(segment)(f[j]));
                }
                first_is_none(g, named(segment));
            },
        }
    }
}

pub proof fn child_in_bounds(node: NodeView, segment: Seq<char>)
    ensures
        child_at(node, segment) matches Some(i) ==> 0 <= i < children(node).len(),
{
    if let NodeView::Struct(f) = node {
        first_means(f, named(segment));
    }
}

/// A write changes no field's range.
proof fn ranges_stay(
    node: NodeView,
    segments: Seq<Seq<char>>,
    declared: Option<FieldRange>,
    value: ValueView,
    others: Seq<Seq<char>>,
    above: Option<FieldRange>,
)
    requires
        written(node, segments, declared, value) is Ok,
    ensures
        held_range(written(node, segments, declared, value)->Ok_0.0, others, above) == held_range(
            node,
            others,
            above,
        ),
    decreases segments.len(),
{
    let after = written(node, segments, declared, value)->Ok_0.0;
    if segments.len() == 0 {
        if others.len() > 0 {
            assert(child_at(after, others[0]) is None);
            assert(child_at(node, others[0]) is None);
        }
    } else {
        child_in_bounds(node, segments[0]);
        let i = child_at(node, segments[0])->0;
        let field = children(node)[i];
        let inner = written(
            field.value,
            segments.drop_first(),
            inherited(field.range, declared),
            value,
        )->Ok_0.0;
        if others.len() > 0 {
            same_children(node, i, inner, others[0]);
            child_in_bounds(node, others[0]);
            if let Some(j) = child_at(node, others[0]) {
                let there = children(node)[j];
                assert(children(after)[j].range == there.range);
                if j == i {
                    ranges_stay(
                        field.value,
                        segments.drop_first(),
                        inherited(field.range, declared),
                        value,
                        others.drop_first(),
                        inherited(there.range, above),
                    );
                }
            }
        }
    }
}

/// Writing to a path leaves every path leading where it led.
pub proof fn still_located(
    roots: Seq<(Seq<char>, Reach)>,
    targets: Seq<(Reach, NodeView)>,
    t: int,
    node: NodeView,
    path: Seq<char>,
)
    requires
        0 <= t < targets.len(),
    ensures
        located(roots, targets.update(t, (targets[t].0, node)), path) == located(
            roots,
            targets,
            path,
        ),
{
    let after = targets.update(t, (targets[t].0, node));
    if let Some(i) = first_where(roots, root_called(before_dot(path))) {
        let p = reached(roots[i].1);
        first_means(targets, p);
        match first_where(targets, p) {
            Some(k) => {
                assert forall|j: int| 0 <= j < k implies !p(#[trigger] after[j]) by {
                    assert(!p(targets[j]));
                }
                first_is(after, p, k);
            },
            None => {
                assert forall|j: int| 0 <= j < after.len() implies !p(#[trigger] after[j]) by {
                    assert(!p(targets[j]));
                }
                first_is_none(after, p);
            },
        }
    }
}

pub proof fn located_in_bounds(
    roots: Seq<(Seq<char>, Reach)>,
    targets: Seq<(Reach, NodeView)>,
    path: Seq<char>,
)
    ensures
        located(roots, targets, path) matches Ok(t) ==> 0 <= t < targets.len(),
{
    if let Some(i) = first_where(roots, root_called(before_dot(path))) {
        first_means(targets, reached(roots[i].1));
    }
}

/// A write to one path changes nothing about the bounds that others meet.
proof fn bounds_stay(
    roots: Seq<(Seq<char>, Reach)>,
    targets: Seq<(Reach, NodeView)>,
    path: Seq<char>,
    value: ValueView,
    other: Seq<char>,
    next: ValueView,
)
    requires
        set_in(roots, targets, path, value) is Ok,
    ensures
        bounds_ok(roots, set_in(roots, targets, path, value)->Ok_0.0, other, next) == bounds_ok(
            roots,
            targets,
            other,
            next,
        ),
{
    let t = located(roots, targets, path)->Ok_0;
    located_in_bounds(roots, targets, path);
    let node = written(targets[t].1, segments_of(path), None, value)->Ok_0.0;
    still_located(roots, targets, t, node, other);
    located_in_bounds(roots, targets, other);
    if let Ok(u) = located(roots, targets, other) {
        if u == t {
            ranges_stay(
                targets[t].1,
                segments_of(path),
                None,
                value,
                segments_of(other),
                None,
            );
        }
    }
}

/// Applying entries changes nothing about the bounds that a write meets.
proof fn bounds_stay_applied(
    roots: Seq<(Seq<char>, Reach)>,
    targets: Seq<(Reach, NodeView)>,
    entries: Seq<(Seq<char>, ValueView)>,
    n: int,
    other: Seq<char>,
    next: ValueView,
)
    ensures
        bounds_ok(roots, applied(roots, targets, entries, n).0, other, next) == bounds_ok(
            roots,
            targets,
            other,
            next,
        ),
    decreases n,
{
    if n > 0 {
        bounds_stay_applied(roots, targets, entries, n - 1, other, next);
        let before = applied(roots, targets, entries, n - 1).0;
        if set_in(roots, before, entries[n - 1].0, entries[n - 1].1) is Ok {
            bounds_stay(roots, before, entries[n - 1].0, entries[n - 1].1, other, next);
        }
    }
}

/// Whether every entry meets bounds in order.
pub open spec fn all_bounds_ok(
    roots: Seq<(Seq<char>, Reach)>,
    targets: Seq<(Reach, NodeView)>,
    entries: Seq<(Seq<char>, ValueView)>,
) -> bool {
    forall|i: int|
        0 <= i < entries.len() ==> bounds_ok(
            roots,
            targets,
            (#[trigger] entries[i]).0,
            entries[i].1,
        )
}

impl TweakOverrides {
    /// No overrides.
    pub fn new() -> (r: TweakOverrides)
        ensures
            r.values.wf(),
            r.values.entries().len() == 0,
            r.values@ == Map::<Seq<char>, ValueView>::empty(),
    {
        TweakOverrides { values: PathMap::new() }
    }

    pub fn is_empty(&self) -> (r: bool)
        requires
            self.values.wf(),
        ensures
            r == (self.values@.len() == 0),
    {
        self.values.is_empty()
    }

    pub fn len(&self) -> (r: usize)
        requires
            self.values.wf(),
        ensures
            r == self.values@.len(),
    {
        self.values.len()
    }

    /// Write every override into the world, in the order of their paths, and
    /// return how many landed. One that does not land is passed over.
    pub fn apply(&self, world: &mut World) -> (r: usize)
        requires
            self.values.wf(),
            old(world).wf(),
            all_bounds_ok(
                tunables(old(world)@).roots,
                old(world)@.targets,
                self.values.entries(),
            ),
        ensures
            final(world).wf(),
            final(world)@.tweakables == old(world)@.tweakables,
            final(world)@.overrides == old(world)@.overrides,
            match old(world)@.tweakables {
                Some(t) => {
                    let n = self.values.entries().len() as int;
                    let done = applied(t.roots, old(world)@.targets, self.values.entries(), n);
                    final(world)@.targets == done.0 && r == done.1
                },
                None => final(world)@.targets == old(world)@.targets && r == 0,
            },
    {
        let tweaks: Tweakables = match world.tweakables.take() {
            Some(t) => t,
            None => {
                return 0;
            },
        };
        let ghost roots = tweaks@.roots;
        let ghost start = world@.targets;
        let ghost entries = self.values.entries();
        let n: usize = self.values.len();
        let mut count: usize = 0;
        let mut i: usize = 0;
        while i < n
            invariant
                i <= n == entries.len(),
                count <= i,
                entries == self.values.entries(),
                roots == tweaks@.roots,
                all_bounds_ok(roots, start, entries),
                world@.targets == applied(roots, start, entries, i as int).0,
                count == applied(roots, start, entries, i as int).1,
                world.tweakables is None,
                world.overrides == old(world).overrides,
            decreases n - i,
        {
            proof {
                let next = entries[i as int];
                bounds_stay_applied(roots, start, entries, i as int, next.0, next.1);
            }
            let value: TweakValue = self.values.value(i).clone();
            if tweaks.set(world, self.values.key(i), value).is_ok() {
                count = count + 1;
            }
            i = i + 1;
        }
        world.tweakables = Some(tweaks);
        count
    }
}

// ---------------------------------------------------------------------------
// Editing the world
// ---------------------------------------------------------------------------

/// The leaves, marked where there is an override.
pub open spec fn marked(fields: Seq<TweakFieldView>, overrides: Map<Seq<char>, ValueView>) -> Seq<
    TweakFieldView,
> {
    Seq::new(
        fields.len(),
        |i: int|
            TweakFieldView { overridden: overrides.contains_key(fields[i].path), ..fields[i] },
    )
}

/// Every leaf of a world.
pub open spec fn listed_fields(w: WorldView) -> Seq<TweakFieldView> {
    match w.tweakables {
        Some(t) => {
            let all = fields_under(t.roots, w.targets, t.roots.len() as int);
            match w.overrides {
                Some(o) => marked(all, o),
                None => all,
            }
        },
        None => Seq::empty(),
    }
}

/// Every leaf in the world, marked where there is an override for it.
pub fn fields_of(world: &World) -> (r: Vec<TweakField>)
    requires
        world.wf(),
    ensures
        field_views(r@) == listed_fields(world@),
{
    match &world.tweakables {
        Some(tweaks) => {
            let mut fields: Vec<TweakField> = tweaks.fields(world);
            match &world.overrides {
                Some(overrides) => {
                    let ghost all = field_views(fields@);
                    let n: usize = fields.len();
                    let mut i: usize = 0;
                    while i < n
                        invariant
                            i <= n == fields@.len() == all.len(),
                            overrides.values.wf(),
                            forall|j: int|
                                0 <= j < i ==> (#[trigger] fields@[j])@ == marked(
                                    all,
                                    overrides.values@,
                                )[j],
                            forall|j: int| i <= j < n ==> (#[trigger] fields@[j])@ == all[j],
                        decreases n - i,
                    {
                        let hit: bool = overrides.values.contains_key(fields[i].path.as_str());
                        fields[i].overridden = hit;
                        i = i + 1;
                    }
                    proof {
                        assert(field_views(fields@) =~= marked(all, overrides.values@));
                    }
                },
                None => {},
            }
            fields
        },
        None => {
            let none: Vec<TweakField> = Vec::new();
            proof {
                assert(field_views(none@) =~= Seq::empty());
            }
            none
        },
    }
}

/// A world in which one leaf was set and the value that landed recorded, and what
/// came of it.
pub open spec fn recorded(w: WorldView, path: Seq<char>, value: ValueView) -> (
    WorldView,
    Result<ValueView, TweakError>,
) {
    match w.tweakables {
        Some(t) => match set_in(t.roots, w.targets, path, value) {
            Ok((targets, landed)) => (
                WorldView {
                    targets,
                    tweakables: w.tweakables,
                    overrides: Some(
                        (match w.overrides {
                            Some(o) => o,
                            None => Map::empty(),
                        }).insert(path, landed),
                    ),
                },
                Ok(landed),
            ),
            Err(e) => (w, Err(e)),
        },
        None => (w, Err(TweakError::RootAbsent)),
    }
}

/// Set one leaf and record what landed as an override.
pub fn set_and_record(world: &mut World, path: &str, value: TweakValue) -> (r: Result<
    TweakValue,
    TweakError,
>)
    requires
        old(world).wf(),
        bounds_ok(tunables(old(world)@).roots, old(world)@.targets, path@, value@),
    ensures
        final(world).wf(),
        final(world)@ == recorded(old(world)@, path@, value@).0,
        outcome(r) == recorded(old(world)@, path@, value@).1,
{
    let tweaks: Tweakables = match world.tweakables.take() {
        Some(t) => t,
        None => {
            return Err(TweakError::RootAbsent);
        },
    };
    let result = tweaks.set(world, path, value);
    world.tweakables = Some(tweaks);
    if let Ok(landed) = &result {
        let mut overrides: TweakOverrides = match world.overrides.take() {
            Some(o) => o,
            None => TweakOverrides::new(),
        };
        overrides.values.insert(path.to_owned(), landed.clone());
        world.overrides = Some(overrides);
    }
    result
}

/// A world in which one leaf was put back and its override forgotten, and what
/// came of it.
pub open spec fn cleared(w: WorldView, path: Seq<char>) -> (
    WorldView,
    Result<Option<ValueView>, TweakError>,
) {
    match w.tweakables {
        Some(t) => {
            let forgotten = match w.overrides {
                Some(o) => Some(o.remove(path)),
                None => None,
            };
            if t.authored.contains_key(path) {
                match set_in(t.roots, w.targets, path, t.authored[path]) {
                    Ok((targets, landed)) => (
                        WorldView { targets, tweakables: w.tweakables, overrides: forgotten },
                        Ok(Some(landed)),
                    ),
                    Err(e) => (w, Err(e)),
                }
            } else {
                (
                    WorldView {
                        targets: w.targets,
                        tweakables: w.tweakables,
                        overrides: forgotten,
                    },
                    Ok(None),
                )
            }
        },
        None => (w, Err(TweakError::RootAbsent)),
    }
}

/// Whether putting a leaf back meets bounds in order.
pub open spec fn clear_bounds_ok(w: WorldView, path: Seq<char>) -> bool {
    let t = tunables(w);
    t.authored.contains_key(path) ==> bounds_ok(t.roots, w.targets, path, t.authored[path])
}

/// What came of putting a leaf back.
pub open spec fn put_back(r: Result<Option<TweakValue>, TweakError>) -> Result<
    Option<ValueView>,
    TweakError,
> {
    match r {
        Ok(Some(v)) => Ok(Some(v@)),
        Ok(None) => Ok(None),
        Err(e) => Err(e),
    }
}

/// Put one leaf back to what the world was registered with, and forget the
/// override. `Ok(None)` means that there was nothing to go back to; the override
/// is dropped either way.
pub fn clear(world: &mut World, path: &str) -> (r: Result<Option<TweakValue>, TweakError>)
    requires
        old(world).wf(),
        clear_bounds_ok(old(world)@, path@),
    ensures
        final(world).wf(),
        final(world)@ == cleared(old(world)@, path@).0,
        put_back(r) == cleared(old(world)@, path@).1,
{
    let tweaks: Tweakables = match world.tweakables.take() {
        Some(t) => t,
        None => {
            return Err(TweakError::RootAbsent);
        },
    };
    let authored: Option<TweakValue> = match tweaks.authored(path) {
        Some(v) => Some(v.clone()),
        None => None,
    };
    let result: Result<Option<TweakValue>, TweakError> = match authored {
        Some(value) => match tweaks.set(world, path, value) {
            Ok(landed) => Ok(Some(landed)),
            Err(e) => Err(e),
        },
        None => Ok(None),
    };
    world.tweakables = Some(tweaks);
    if result.is_ok() {
        if let Some(overrides) = &mut world.overrides {
            overrides.values.remove(path);
        }
    }
    result
}

/// A world after the leaves of the first `n` entries were put back in turn, and
/// how many of them had something to go back to.
pub open spec fn cleared_all(
    w: WorldView,
    entries: Seq<(Seq<char>, ValueView)>,
    n: int,
) -> (WorldView, int)
    decreases n,
{
    if n <= 0 {
        (w, 0)
    } else {
        let (before, count) = cleared_all(w, entries, n - 1);
        let (after, result) = cleared(before, entries[n - 1].0);
        match result {
            Ok(Some(_)) => (after, count + 1),
            _ => (after, count),
        }
    }
}

/// Putting leaves back changes neither the roots nor the bounds that they meet.
proof fn bounds_stay_cleared(
    w: WorldView,
    entries: Seq<(Seq<char>, ValueView)>,
    n: int,
    path: Seq<char>,
)
    ensures
        cleared_all(w, entries, n).0.tweakables == w.tweakables,
        clear_bounds_ok(cleared_all(w, entries, n).0, path) == clear_bounds_ok(w, path),
        0 <= n ==> 0 <= cleared_all(w, entries, n).1 <= n,
    decreases n,
{
    if n > 0 {
        bounds_stay_cleared(w, entries, n - 1, path);
        let before = cleared_all(w, entries, n - 1).0;
        let p = entries[n - 1].0;
        let t = tunables(w);
        if w.tweakables is Some && t.authored.contains_key(p) && set_in(
            t.roots,
            before.targets,
            p,
            t.authored[p],
        ) is Ok && t.authored.contains_key(path) {
            bounds_stay(t.roots, before.targets, p, t.authored[p], path, t.authored[path]);
        }
    }
}

/// Put back every leaf that there is an override for, and return how many had
/// something to go back to.
pub fn clear_all(world: &mut World) -> (r: usize)
    requires
        old(world).wf(),
        old(world).overrides matches Some(o) ==> forall|i: int|
            0 <= i < o.values.entries().len() ==> clear_bounds_ok(
                old(world)@,
                (#[trigger] o.values.entries()[i]).0,
            ),
    ensures
        final(world).wf(),
        match old(world).overrides {
            Some(o) => {
                let entries = o.values.entries();
                let done = cleared_all(old(world)@, entries, entries.len() as int);
                final(world)@ == done.0 && r == done.1
            },
            None => final(world)@ == old(world)@ && r == 0,
        },
{
    let ghost start = world@;
    let mut paths: Vec<String> = Vec::new();
    let ghost mut entries: Seq<(Seq<char>, ValueView)> = Seq::empty();
    if let Some(overrides) = &world.overrides {
        proof {
            entries = overrides.values.entries();
        }
        let n: usize = overrides.values.len();
        let mut i: usize = 0;
        while i < n
            invariant
                i <= n == entries.len(),
                entries == overrides.values.entries(),
                paths@.len() == i,
                forall|j: int| 0 <= j < i ==> (#[trigger] paths@[j])@ == entries[j].0,
            decreases n - i,
        {
            paths.push(overrides.values.key(i).to_owned());
            i = i + 1;
        }
    }
    let mut restored: usize = 0;
    let mut i: usize = 0;
    while i < paths.len()
        invariant
            i <= paths@.len() == entries.len(),
            restored <= i,
            forall|j: int| 0 <= j < entries.len() ==> (#[trigger] paths@[j])@ == entries[j].0,
            forall|j: int|
                0 <= j < entries.len() ==> clear_bounds_ok(start, (#[trigger] entries[j]).0),
            world.wf(),
            world@ == cleared_all(start, entries, i as int).0,
            restored == cleared_all(start, entries, i as int).1,
        decreases paths@.len() - i,
    {
        proof {
            bounds_stay_cleared(start, entries, i as int, entries[i as int].0);
        }
        if let Ok(Some(_)) = clear(world, paths[i].as_str()) {
            restored = restored + 1;
        }
        i = i + 1;
    }
    restored
}

} // verus!
