//! What an editor sees of a value: its shape, its leaves, and the ranges that its
//! fields declare.
//!
//! A reflected value is a tree. A struct has named fields, a tuple struct
//! numbered ones, and either may declare the range that a slider should cover; an
//! enum has its variants; a leaf is a number or a switch. Everything else is
//! there and out of reach.

use vstd::prelude::*;

use crate::find::{first_is, first_is_none, first_where, none_before};
use crate::float::{below, clamped, is_nan, F32, ONE_BITS};

verus! {

/// Slider bounds for one numeric field.
#[derive(Clone, Copy, Debug, PartialEq, Eq, Structural)]
pub struct FieldRange {
    pub min: F32,
    pub max: F32,
    /// What one press of an arrow key is worth; zero means continuous.
    pub step: F32,
}

/// The bounds are numbers, in order.
pub open spec fn in_order(r: FieldRange) -> bool {
    !is_nan(r.min) && !is_nan(r.max) && !below(r.max, r.min)
}

/// The range of a single-precision field that declares none: -100 to 100.
pub open spec fn default_range_spec() -> FieldRange {
    FieldRange { min: F32(0xc2c8_0000), max: F32(0x42c8_0000), step: F32(0) }
}

/// The range of an unsigned field that declares none: 0 to 256, in ones.
pub open spec fn default_int_range_spec() -> FieldRange {
    FieldRange { min: F32(0), max: F32(0x4380_0000), step: F32(ONE_BITS) }
}

/// The range of a signed field that declares none: -256 to 256, in ones.
pub open spec fn default_signed_range_spec() -> FieldRange {
    FieldRange { min: F32(0xc380_0000), max: F32(0x4380_0000), step: F32(ONE_BITS) }
}

/// The range of a switch: 0 to 1, in ones.
pub open spec fn switch_range_spec() -> FieldRange {
    FieldRange { min: F32(0), max: F32(ONE_BITS), step: F32(ONE_BITS) }
}

/// The range of a single-precision field that declares none.
pub fn default_range() -> (r: FieldRange)
    ensures
        r == default_range_spec(),
{
    FieldRange { min: F32(0xc2c8_0000), max: F32(0x42c8_0000), step: F32(0) }
}

/// The range of an unsigned field that declares none.
pub fn default_int_range() -> (r: FieldRange)
    ensures
        r == default_int_range_spec(),
{
    FieldRange { min: F32(0), max: F32(0x4380_0000), step: F32(ONE_BITS) }
}

/// The range of a signed field that declares none.
pub fn default_signed_range() -> (r: FieldRange)
    ensures
        r == default_signed_range_spec(),
{
    FieldRange { min: F32(0xc380_0000), max: F32(0x4380_0000), step: F32(ONE_BITS) }
}

impl FieldRange {
    /// A continuous range.
    pub fn new(min: F32, max: F32) -> (r: FieldRange)
        ensures
            r == (FieldRange { min, max, step: F32(0) }),
    {
        FieldRange { min, max, step: F32(0) }
    }

    /// The same bounds, in steps.
    pub fn with_step(self, step: F32) -> (r: FieldRange)
        ensures
            r == (FieldRange { min: self.min, max: self.max, step }),
    {
        FieldRange { min: self.min, max: self.max, step }
    }

    /// `value` moved into the range.
    pub fn clamp(&self, value: F32) -> (r: F32)
        requires
            in_order(*self),
        ensures
            r == clamped(value, self.min, self.max),
    {
        value.clamp(self.min, self.max)
    }
}

/// A leaf, by the type that holds it.
#[derive(Clone, Copy, Debug, PartialEq, Eq, Structural)]
pub enum Scalar {
    Float(F32),
    Bool(bool),
    U8(u8),
    U32(u32),
    U64(u64),
    Usize(usize),
    I32(i32),
    I64(i64),
}

/// A named field that a variant of an enum has, and the range that it declares.
pub struct VariantField {
    pub name: String,
    pub range: Option<FieldRange>,
}

/// One variant of an enum: its name, whether it carries no data, and its named
/// fields where it has any.
pub struct Variant {
    pub name: String,
    pub unit: bool,
    pub fields: Vec<VariantField>,
}

/// A reflected value.
pub enum Node {
    Struct(Vec<Field>),
    TupleStruct(Vec<Field>),
    Enum { variants: Vec<Variant>, current: String },
    Leaf(Scalar),
    Opaque,
}

/// One field: its name, the range that it declares, and its value. The fields of
/// a tuple struct go by their numbers, and their names are not read.
pub struct Field {
    pub name: String,
    pub range: Option<FieldRange>,
    pub value: Node,
}

/// What a reflected value is.
pub enum NodeView {
    Struct(Seq<FieldView>),
    TupleStruct(Seq<FieldView>),
    Enum { variants: Seq<VariantView>, current: Seq<char> },
    Leaf(Scalar),
    Opaque,
}

/// What a field is.
pub struct FieldView {
    pub name: Seq<char>,
    pub range: Option<FieldRange>,
    pub value: NodeView,
}

/// What a variant's named field is.
pub struct VariantFieldView {
    pub name: Seq<char>,
    pub range: Option<FieldRange>,
}

/// What a variant is.
pub struct VariantView {
    pub name: Seq<char>,
    pub unit: bool,
    pub fields: Seq<VariantFieldView>,
}

impl VariantField {
    pub open spec fn view(&self) -> VariantFieldView {
        VariantFieldView { name: self.name@, range: self.range }
    }
}

/// The named fields of a variant.
pub open spec fn variant_fields_view(s: Seq<VariantField>) -> Seq<VariantFieldView> {
    Seq::new(s.len(), |i: int| s[i].view())
}

impl Variant {
    pub open spec fn view(&self) -> VariantView {
        VariantView {
            name: self.name@,
            unit: self.unit,
            fields: variant_fields_view(self.fields@),
        }
    }
}

/// The variants of an enum.
pub open spec fn variants_view(s: Seq<Variant>) -> Seq<VariantView> {
    Seq::new(s.len(), |i: int| s[i].view())
}

impl Node {
    pub open spec fn view(&self) -> NodeView
        decreases self,
    {
        match self {
            Node::Struct(fields) => NodeView::Struct(
                Seq::new(
                    fields@.len(),
                    |i: int|
                        if 0 <= i < fields@.len() {
                            fields@[i].view()
                        } else {
                            arbitrary()
                        },
                ),
            ),
            Node::TupleStruct(fields) => NodeView::TupleStruct(
                Seq::new(
                    fields@.len(),
                    |i: int|
                        if 0 <= i < fields@.len() {
                            fields@[i].view()
                        } else {
                            arbitrary()
                        },
                ),
            ),
            Node::Enum { variants, current } => NodeView::Enum {
                variants: variants_view(variants@),
                current: current@,
            },
            Node::Leaf(s) => NodeView::Leaf(*s),
            Node::Opaque => NodeView::Opaque,
        }
    }
}

impl Field {
    pub open spec fn view(&self) -> FieldView
        decreases self,
    {
        FieldView { name: self.name@, range: self.range, value: self.value.view() }
    }
}

/// The fields of a struct or a tuple struct.
pub open spec fn fields_view(s: Seq<Field>) -> Seq<FieldView> {
    Seq::new(s.len(), |i: int| s[i].view())
}

pub proof fn node_fields(node: Node)
    ensures
        node matches Node::Struct(f) ==> node.view() == NodeView::Struct(fields_view(f@)),
        node matches Node::TupleStruct(f) ==> node.view() == NodeView::TupleStruct(
            fields_view(f@),
        ),
{
    match node {
        Node::Struct(f) => {
            assert(node.view()->Struct_0 =~= fields_view(f@));
        },
        Node::TupleStruct(f) => {
            assert(node.view()->TupleStruct_0 =~= fields_view(f@));
        },
        _ => {},
    }
}

/// Fields of a given name.
pub open spec fn named(name: Seq<char>) -> spec_fn(FieldView) -> bool {
    |f: FieldView| f.name == name
}

/// The first field of a name.
pub fn find_named(fields: &Vec<Field>, name: &String) -> (r: Option<usize>)
    ensures
        match r {
            Some(i) => i < fields@.len() && first_where(fields_view(fields@), named(name@)) == Some(
                i as int,
            ),
            None => first_where(fields_view(fields@), named(name@)) is None,
        },
{
    let ghost seen = fields_view(fields@);
    let mut i: usize = 0;
    while i < fields.len()
        invariant
            i <= fields@.len(),
            seen == fields_view(fields@),
            none_before(seen, named(name@), i as int),
        decreases fields@.len() - i,
    {
        if fields[i].name == *name {
            proof {
                first_is(seen, named(name@), i as int);
            }
            return Some(i);
        }
        i = i + 1;
    }
    proof {
        first_is_none(seen, named(name@));
    }
    None
}

/// A variant's named fields of a given name.
pub open spec fn variant_named(name: Seq<char>) -> spec_fn(VariantFieldView) -> bool {
    |f: VariantFieldView| f.name == name
}

/// Variants with a named field of a given name.
pub open spec fn with_field(name: Seq<char>) -> spec_fn(VariantView) -> bool {
    |v: VariantView| first_where(v.fields, variant_named(name)) is Some
}

/// The range that the field of a given name declares: a struct's field, or the
/// field of the first of an enum's variants that has one.
pub open spec fn declared_for(node: NodeView, name: Seq<char>) -> Option<FieldRange> {
    match node {
        NodeView::Struct(f) => match first_where(f, named(name)) {
            Some(i) => f[i].range,
            None => None,
        },
        NodeView::Enum { variants, current: _ } => match first_where(variants, with_field(name)) {
            Some(v) => {
                let fields = variants[v].fields;
                fields[first_where(fields, variant_named(name))->0].range
            },
            None => None,
        },
        _ => None,
    }
}

/// The first of a variant's named fields of a name.
fn find_variant_field(fields: &Vec<VariantField>, name: &String) -> (r: Option<usize>)
    ensures
        match r {
            Some(i) => i < fields@.len() && first_where(
                variant_fields_view(fields@),
                variant_named(name@),
            ) == Some(i as int),
            None => first_where(variant_fields_view(fields@), variant_named(name@)) is None,
        },
{
    let ghost seen = variant_fields_view(fields@);
    let mut i: usize = 0;
    while i < fields.len()
        invariant
            i <= fields@.len(),
            seen == variant_fields_view(fields@),
            none_before(seen, variant_named(name@), i as int),
        decreases fields@.len() - i,
    {
        if fields[i].name == *name {
            proof {
                first_is(seen, variant_named(name@), i as int);
            }
            return Some(i);
        }
        i = i + 1;
    }
    proof {
        first_is_none(seen, variant_named(name@));
    }
    None
}

/// The range that the named field of the first variant that has one declares.
fn variant_range(variants: &Vec<Variant>, name: &String) -> (r: Option<FieldRange>)
    ensures
        forall|current: Seq<char>|
            r == #[trigger] declared_for(
                NodeView::Enum { variants: variants_view(variants@), current },
                name@,
            ),
{
    let ghost seen = variants_view(variants@);
    let mut i: usize = 0;
    while i < variants.len()
        invariant
            i <= variants@.len(),
            seen == variants_view(variants@),
            none_before(seen, with_field(name@), i as int),
        decreases variants@.len() - i,
    {
        match find_variant_field(&variants[i].fields, name) {
            Some(j) => {
                proof {
                    assert(seen[i as int] == variants@[i as int].view());
                    first_is(seen, with_field(name@), i as int);
                }
                return variants[i].fields[j].range;
            },
            None => {
                proof {
                    assert(seen[i as int] == variants@[i as int].view());
                }
            },
        }
        i = i + 1;
    }
    proof {
        first_is_none(seen, with_field(name@));
    }
    None
}

impl FieldRange {
    /// The range that the field `name` of a struct, or of a variant of an enum,
    /// declares: none where there is no such field, or where it declares none.
    pub fn lookup(node: &Node, name: &String) -> (r: Option<FieldRange>)
        ensures
            r == declared_for(node.view(), name@),
    {
        proof {
            node_fields(*node);
        }
        match node {
            Node::Struct(fields) => match find_named(fields, name) {
                Some(i) => fields[i].range,
                None => None,
            },
            Node::Enum { variants, current: _ } => variant_range(variants, name),
            _ => None,
        }
    }
}

} // verus!
