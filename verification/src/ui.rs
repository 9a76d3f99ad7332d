//! The overlay: quads in painter's order, and the texture each is drawn with.
//!
//! A [`UiBatch`] is a list of quads and the places where the texture changes.
//! [`runs`](UiBatch::runs) cuts the list into stretches of one texture, which
//! are what the GPU is asked to draw.

use std::collections::HashSet;
use vstd::prelude::*;
use crate::float::{F32, Vec4};
use crate::texture::TextureHandle;

verus! {

broadcast use vstd::std_specs::hash::group_hash_axioms;

/// The bits of minus one, which no texture coordinate is.
pub const SOLID_BITS: u32 = 0xbf80_0000;

/// How many bytes a quad is on the GPU.
pub const QUAD_STRIDE: u64 = 48;

/// How many bytes the pass's uniform is.
pub const UNIFORM_SIZE: u64 = 16;

/// How many quads the pass has room for before it has drawn any.
pub const INITIAL_QUAD_CAPACITY: u32 = 64;

/// One rectangle: where it is, what part of the texture it shows, and its colour
/// with the alpha multiplied in.
#[derive(Clone, Copy, Debug, PartialEq, Eq, Structural, Hash)]
pub struct UiQuad {
    /// `x`, `y`, width and height, in logical pixels.
    pub rect: Vec4,
    pub uv: Vec4,
    pub color: Vec4,
}

/// The texture coordinates that mean no texture.
pub open spec fn solid_uv() -> Vec4 {
    Vec4 {
        x: F32(SOLID_BITS),
        y: F32(SOLID_BITS),
        z: F32(SOLID_BITS),
        w: F32(SOLID_BITS),
    }
}

/// Whether `r` is a straight colour with its alpha multiplied in, by `times`.
pub open spec fn premultiplied<M: Fn(F32, F32) -> F32>(times: M, color: Vec4, r: Vec4) -> bool {
    &&& times.ensures((color.x, color.w), r.x)
    &&& times.ensures((color.y, color.w), r.y)
    &&& times.ensures((color.z, color.w), r.z)
    &&& r.w == color.w
}

impl UiQuad {
    /// A rectangle of one straight colour. `times` multiplies.
    pub fn solid<M: Fn(F32, F32) -> F32>(rect: Vec4, color: Vec4, times: M) -> (r: UiQuad)
        requires
            forall|a: F32, b: F32| times.requires((a, b)),
        ensures
            r.rect == rect,
            r.uv == solid_uv(),
            premultiplied(times, color, r.color),
    {
        let s = F32(SOLID_BITS);
        UiQuad { rect, uv: Vec4 { x: s, y: s, z: s, w: s }, color: UiQuad::rgba(color, times) }
    }

    /// A rectangle of texture, tinted by a straight colour. `times` multiplies.
    pub fn textured<M: Fn(F32, F32) -> F32>(rect: Vec4, uv: Vec4, color: Vec4, times: M) -> (r:
        UiQuad)
        requires
            forall|a: F32, b: F32| times.requires((a, b)),
        ensures
            r.rect == rect,
            r.uv == uv,
            premultiplied(times, color, r.color),
    {
        UiQuad { rect, uv, color: UiQuad::rgba(color, times) }
    }

    /// A straight colour with its alpha multiplied in. `times` multiplies.
    pub fn rgba<M: Fn(F32, F32) -> F32>(color: Vec4, times: M) -> (r: Vec4)
        requires
            forall|a: F32, b: F32| times.requires((a, b)),
        ensures
            premultiplied(times, color, r),
    {
        Vec4 {
            x: times(color.x, color.w),
            y: times(color.y, color.w),
            z: times(color.z, color.w),
            w: color.w,
        }
    }
}

/// A change of texture: from quad `first` on.
#[derive(Clone, Copy, Debug, PartialEq, Eq, Structural, Hash)]
pub struct Switch {
    pub first: u32,
    pub texture: Option<TextureHandle>,
}

/// The overlay of one frame. Only [`set_texture`](UiBatch::set_texture) adds a
/// change of texture.
#[derive(Debug)]
pub struct UiBatch {
    pub quads: Vec<UiQuad>,
    /// The texture of the quads that name none.
    pub atlas: Option<TextureHandle>,
    switches: Vec<Switch>,
}

/// What an overlay is.
pub struct BatchView {
    pub quads: Seq<UiQuad>,
    pub atlas: Option<TextureHandle>,
    pub switches: Seq<Switch>,
}

impl View for UiBatch {
    type V = BatchView;

    closed spec fn view(&self) -> BatchView {
        BatchView { quads: self.quads@, atlas: self.atlas, switches: self.switches@ }
    }
}

/// A stretch of quads drawn with one texture.
#[derive(Clone, Copy, Debug, PartialEq, Eq, Structural, Hash)]
pub struct UiRun {
    pub first: u32,
    pub count: u32,
    pub texture: Option<TextureHandle>,
}

/// The texture that quad `k` is drawn with: the last change at or before it.
pub open spec fn texture_at(switches: Seq<Switch>, k: int) -> Option<TextureHandle>
    decreases switches.len(),
{
    if switches.len() == 0 {
        None
    } else if switches.last().first <= k {
        switches.last().texture
    } else {
        texture_at(switches.drop_last(), k)
    }
}

/// Where the stretch that starts at change `i` ends: at the next change, or with
/// the quads.
pub open spec fn end_of(switches: Seq<Switch>, total: int, i: int) -> int {
    if i + 1 < switches.len() {
        switches[i + 1].first as int
    } else {
        total
    }
}

/// A stretch that has something in it.
pub open spec fn run_if_any(first: int, end: int, texture: Option<TextureHandle>) -> Seq<UiRun> {
    if end > first {
        seq![UiRun { first: first as u32, count: (end - first) as u32, texture }]
    } else {
        Seq::empty()
    }
}

/// The stretches of the first `n` changes, after the one before any.
pub open spec fn runs_to(switches: Seq<Switch>, total: int, n: int) -> Seq<UiRun>
    decreases n,
{
    if n <= 0 {
        run_if_any(0, end_of(switches, total, -1), None)
    } else {
        runs_to(switches, total, n - 1) + run_if_any(
            switches[n - 1].first as int,
            end_of(switches, total, n - 1),
            switches[n - 1].texture,
        )
    }
}

/// The stretches of a batch.
pub open spec fn runs_of(switches: Seq<Switch>, total: int) -> Seq<UiRun> {
    runs_to(switches, total, switches.len() as int)
}

/// The texture behind the last of these changes.
pub open spec fn last_texture(switches: Seq<Switch>) -> Option<TextureHandle> {
    if switches.len() == 0 {
        None
    } else {
        switches.last().texture
    }
}

/// The changes that some quad was painted behind: one at the end of `total` quads
/// has applied to nothing.
pub open spec fn applied(switches: Seq<Switch>, total: int) -> Seq<Switch> {
    if switches.len() > 0 && switches.last().first == total {
        switches.drop_last()
    } else {
        switches
    }
}

/// The changes once `texture` is set behind `total` quads. One that has applied to
/// nothing gives way, and one to the texture that is there already is not made.
pub open spec fn switched(
    switches: Seq<Switch>,
    total: int,
    texture: Option<TextureHandle>,
) -> Seq<Switch> {
    let kept = applied(switches, total);
    if last_texture(kept) == texture {
        kept
    } else {
        kept.push(Switch { first: total as u32, texture })
    }
}

/// The changes come in order, each at a quad of its own, none is past the end, and
/// none is to the texture that is there already.
pub open spec fn in_place(switches: Seq<Switch>, total: int) -> bool {
    &&& forall|i: int, j: int|
        0 <= i < j < switches.len() ==> (#[trigger] switches[i]).first < (
        #[trigger] switches[j]).first
    &&& forall|i: int| 0 <= i < switches.len() ==> (#[trigger] switches[i]).first <= total
    &&& forall|i: int|
        0 <= i < switches.len() ==> (#[trigger] switches[i]).texture != texture_before(switches, i)
}

/// The texture before change `i`.
pub open spec fn texture_before(switches: Seq<Switch>, i: int) -> Option<TextureHandle> {
    if i == 0 {
        None
    } else {
        switches[i - 1].texture
    }
}

impl BatchView {
    /// The changes are in place, and the quads can be counted in 32 bits.
    pub open spec fn wf(self) -> bool {
        &&& self.quads.len() <= u32::MAX
        &&& in_place(self.switches, self.quads.len() as int)
    }
}

impl UiBatch {
    pub fn new() -> (r: UiBatch)
        ensures
            r@.wf(),
            r@ == (BatchView { quads: Seq::empty(), atlas: None, switches: Seq::empty() }),
    {
        let r = UiBatch { quads: Vec::new(), atlas: None, switches: Vec::new() };
        proof {
            assert(r@.quads =~= Seq::<UiQuad>::empty());
            assert(r@.switches =~= Seq::<Switch>::empty());
        }
        r
    }

    /// Forget the quads and their textures. The atlas stays.
    pub fn clear(&mut self)
        ensures
            final(self)@.wf(),
            final(self)@ == (BatchView {
                quads: Seq::empty(),
                atlas: old(self)@.atlas,
                switches: Seq::empty(),
            }),
    {
        self.quads.clear();
        self.switches.clear();
        proof {
            assert(self@.quads =~= Seq::<UiQuad>::empty());
            assert(self@.switches =~= Seq::<Switch>::empty());
        }
    }

    /// The quads, in painter's order.
    pub fn quads(&self) -> (r: &Vec<UiQuad>)
        ensures
            r@ == self@.quads,
    {
        &self.quads
    }

    /// The texture of the quads that name none.
    pub fn atlas(&self) -> (r: Option<TextureHandle>)
        ensures
            r == self@.atlas,
    {
        self.atlas
    }

    /// Paint one more quad, over all the others.
    pub fn push(&mut self, quad: UiQuad)
        requires
            old(self)@.wf(),
            old(self)@.quads.len() < u32::MAX,
        ensures
            final(self)@.wf(),
            final(self)@ == (BatchView { quads: old(self)@.quads.push(quad), ..old(self)@ }),
    {
        self.quads.push(quad);
    }

    /// The texture of the quads from here on; `None` is the atlas.
    #[verifier::spinoff_prover]
    #[verifier::rlimit(40)]
    pub fn set_texture(&mut self, texture: Option<TextureHandle>)
        requires
            old(self)@.wf(),
        ensures
            final(self)@.wf(),
            final(self)@ == (BatchView {
                switches: switched(
                    old(self)@.switches,
                    old(self)@.quads.len() as int,
                    texture,
                ),
                ..old(self)@
            }),
    {
        let first: u32 = self.quads.len() as u32;
        let ghost before = self.switches@;
        let ghost total = self.quads@.len() as int;
        let n: usize = self.switches.len();
        if n > 0 && self.switches[n - 1].first == first {
            self.switches.pop();
        }
        let ghost kept = self.switches@;
        proof {
            assert(kept =~= applied(before, total));
            assert(in_place(kept, total)) by {
                assert forall|i: int| 0 <= i < kept.len() implies (#[trigger] kept[i]).texture
                    != texture_before(kept, i) by {
                    assert(kept[i] == before[i]);
                    assert(texture_before(kept, i) == texture_before(before, i));
                }
            }
            assert forall|i: int| 0 <= i < kept.len() implies (#[trigger] kept[i]).first < total by {
                assert(kept[i] == before[i]);
                assert(before[i].first <= before[before.len() - 1].first) by {
                    if i < before.len() - 1 {
                        assert(before[i].first < before[before.len() - 1].first);
                    }
                }
            }
        }
        if self.texture() != texture {
            self.switches.push(Switch { first, texture });
            proof {
                let now = self.switches@;
                assert(now.drop_last() =~= kept);
                assert forall|i: int| 0 <= i < now.len() implies (#[trigger] now[i]).texture
                    != texture_before(now, i) by {
                    if i < kept.len() {
                        assert(now[i] == kept[i]);
                        assert(texture_before(now, i) == texture_before(kept, i));
                    }
                }
            }
        }
    }

    /// The texture that the next quad would have.
    pub fn texture(&self) -> (r: Option<TextureHandle>)
        ensures
            r == last_texture(self@.switches),
    {
        let n: usize = self.switches.len();
        if n == 0 {
            None
        } else {
            self.switches[n - 1].texture
        }
    }

    /// The batch as stretches of one texture each, in painter's order.
    pub fn runs(&self) -> (r: Vec<UiRun>)
        requires
            self@.wf(),
        ensures
            r@ == runs_of(self@.switches, self@.quads.len() as int),
    {
        let total: u32 = self.quads.len() as u32;
        let n: usize = self.switches.len();
        let mut runs: Vec<UiRun> = Vec::new();
        let lead: u32 = if n > 0 {
            self.switches[0].first
        } else {
            total
        };
        if lead > 0 {
            runs.push(UiRun { first: 0, count: lead, texture: None });
        }
        assert(runs@ =~= runs_to(self.switches@, total as int, 0));
        let mut i: usize = 0;
        while i < n
            invariant
                i <= n == self.switches@.len(),
                total == self.quads@.len(),
                self@.wf(),
                runs@ == runs_to(self.switches@, total as int, i as int),
            decreases n - i,
        {
            let Switch { first, texture } = self.switches[i];
            let end: u32 = if i + 1 < n {
                self.switches[i + 1].first
            } else {
                total
            };
            if end > first {
                runs.push(UiRun { first, count: end - first, texture });
            }
            i = i + 1;
            assert(runs@ =~= runs_to(self.switches@, total as int, i as int));
        }
        runs
    }

    /// Paint a rectangle of one straight colour. `times` multiplies.
    pub fn solid<M: Fn(F32, F32) -> F32>(&mut self, rect: Vec4, color: Vec4, times: M)
        requires
            old(self)@.wf(),
            old(self)@.quads.len() < u32::MAX,
            forall|a: F32, b: F32| times.requires((a, b)),
        ensures
            final(self)@.wf(),
            exists|color_in: Vec4| #[trigger]
                premultiplied(times, color, color_in) && final(self)@ == (BatchView {
                    quads: old(self)@.quads.push(
                        UiQuad { rect, uv: solid_uv(), color: color_in },
                    ),
                    ..old(self)@
                }),
    {
        let quad = UiQuad::solid(rect, color, times);
        proof {
            assert(premultiplied(times, color, quad.color));
        }
        self.push(quad);
    }

    /// Paint a rectangle of texture, tinted by a straight colour. `times` multiplies.
    pub fn textured<M: Fn(F32, F32) -> F32>(
        &mut self,
        rect: Vec4,
        uv: Vec4,
        color: Vec4,
        times: M,
    )
        requires
            old(self)@.wf(),
            old(self)@.quads.len() < u32::MAX,
            forall|a: F32, b: F32| times.requires((a, b)),
        ensures
            final(self)@.wf(),
            exists|color_in: Vec4| #[trigger]
                premultiplied(times, color, color_in) && final(self)@ == (BatchView {
                    quads: old(self)@.quads.push(UiQuad { rect, uv, color: color_in }),
                    ..old(self)@
                }),
    {
        let quad = UiQuad::textured(rect, uv, color, times);
        proof {
            assert(premultiplied(times, color, quad.color));
        }
        self.push(quad);
    }

    pub fn len(&self) -> (r: usize)
        ensures
            r == self@.quads.len(),
    {
        self.quads.len()
    }

    pub fn is_empty(&self) -> (r: bool)
        ensures
            r == (self@.quads.len() == 0),
    {
        self.quads.len() == 0
    }
}

/// Setting a texture moves no quad from one texture to another, and the next quad
/// has the texture that was set.
pub proof fn setting_a_texture_is_about_what_follows(
    batch: BatchView,
    texture: Option<TextureHandle>,
    k: int,
)
    requires
        batch.wf(),
        0 <= k < batch.quads.len(),
    ensures
        ({
            let total = batch.quads.len() as int;
            let now = switched(batch.switches, total, texture);
            &&& texture_at(now, k) == texture_at(batch.switches, k)
            &&& texture_at(now, total) == texture
            &&& last_texture(now) == texture
        }),
{
    let total = batch.quads.len() as int;
    let kept = applied(batch.switches, total);
    let now = switched(batch.switches, total, texture);
    assert(texture_at(kept, k) == texture_at(batch.switches, k));
    assert forall|i: int| 0 <= i < kept.len() implies (#[trigger] kept[i]).first <= total by {
        assert(kept[i] == batch.switches[i]);
    }
    if now != kept {
        assert(now.drop_last() =~= kept);
    } else {
        current_is_last(kept, total);
    }
}

/// A change and a change back round no quad are as if there had been none.
#[verifier::spinoff_prover]
#[verifier::rlimit(50)]
pub proof fn a_bracket_round_nothing_is_folded(batch: BatchView, texture: Option<TextureHandle>)
    requires
        batch.wf(),
    ensures
        ({
            let total = batch.quads.len() as int;
            let back = last_texture(batch.switches);
            switched(switched(batch.switches, total, texture), total, back) == batch.switches
        }),
{
    let total = batch.quads.len() as int;
    let before = batch.switches;
    let kept = applied(before, total);
    let now = switched(before, total, texture);
    assert forall|i: int| 0 <= i < kept.len() implies (#[trigger] kept[i]).first < total by {
        assert(kept[i] == before[i]);
        assert(before[i].first <= before[before.len() - 1].first) by {
            if i < before.len() - 1 {
                assert(before[i].first < before[before.len() - 1].first);
            }
        }
    }
    if now != kept {
        assert(now.drop_last() =~= kept);
    }
    assert(applied(now, total) =~= kept);
    if kept != before {
        let last = before.len() - 1;
        assert(before[last].texture != texture_before(before, last));
        if last > 0 {
            assert(kept.last() == before[last - 1]);
        }
        assert(kept.push(Switch { first: total as u32, texture: before[last].texture }) =~= before);
    }
}

/// Neighbouring stretches differ in their texture, so no draw could have been
/// spared.
pub proof fn neighbouring_runs_differ(batch: BatchView, i: int)
    requires
        batch.wf(),
        0 <= i < runs_of(batch.switches, batch.quads.len() as int).len() - 1,
    ensures
        ({
            let runs = runs_of(batch.switches, batch.quads.len() as int);
            runs[i].texture != runs[i + 1].texture
        }),
{
    runs_to_differ(batch.switches, batch.quads.len() as int, batch.switches.len() as int);
    let runs = runs_of(batch.switches, batch.quads.len() as int);
    assert(apart(runs[i], runs[i + 1]));
}

spec fn apart(a: UiRun, b: UiRun) -> bool {
    a.texture != b.texture
}

spec fn all_apart(runs: Seq<UiRun>) -> bool {
    forall|i: int, j: int| 0 <= i && j == i + 1 && j < runs.len() ==> apart(runs[i], runs[j])
}

proof fn one_more_apart(runs: Seq<UiRun>, run: UiRun)
    requires
        all_apart(runs),
        runs.len() > 0 ==> apart(runs.last(), run),
    ensures
        all_apart(runs.push(run)),
{
    let more = runs.push(run);
    assert forall|i: int, j: int| 0 <= i && j == i + 1 && j < more.len() implies apart(
        more[i],
        more[j],
    ) by {
        if j < runs.len() {
            assert(apart(runs[i], runs[j]));
        }
    }
}

proof fn runs_to_differ(switches: Seq<Switch>, total: int, n: int)
    requires
        0 <= n <= switches.len(),
        in_place(switches, total),
    ensures
        all_apart(runs_to(switches, total, n)),
        n < switches.len() && runs_to(switches, total, n).len() > 0 ==> runs_to(
            switches,
            total,
            n,
        ).last().texture == texture_before(switches, n),
    decreases n,
{
    if n > 0 {
        runs_to_differ(switches, total, n - 1);
        let earlier = runs_to(switches, total, n - 1);
        let at = switches[n - 1];
        let first = at.first as int;
        let end = end_of(switches, total, n - 1);
        if end > first {
            let run = UiRun { first: at.first, count: (end - first) as u32, texture: at.texture };
            assert(runs_to(switches, total, n) =~= earlier.push(run));
            assert(at.texture != texture_before(switches, n - 1));
            one_more_apart(earlier, run);
        } else {
            assert(runs_to(switches, total, n) =~= earlier);
            if n < switches.len() {
                assert(switches[n - 1].first < switches[n].first);
            }
        }
    }
}

/// Past every change, the texture is the last one's.
proof fn current_is_last(switches: Seq<Switch>, k: int)
    requires
        forall|i: int| 0 <= i < switches.len() ==> (#[trigger] switches[i]).first <= k,
    ensures
        texture_at(switches, k) == last_texture(switches),
{
    if switches.len() > 0 {
        assert(switches[switches.len() - 1].first <= k);
    }
}

/// Stretches that follow on from each other, from quad 0 to quad `end`, none of
/// them empty.
pub open spec fn follow_on(runs: Seq<UiRun>, end: int) -> bool
    decreases runs.len(),
{
    if runs.len() == 0 {
        end == 0
    } else {
        runs.last().count > 0 && runs.last().first + runs.last().count == end && follow_on(
            runs.drop_last(),
            runs.last().first as int,
        )
    }
}

/// The stretches of a batch cover every quad once, in painter's order, and each
/// has the texture that its quads were painted with.
pub proof fn runs_partition_the_batch(batch: BatchView)
    requires
        batch.wf(),
    ensures
        follow_on(runs_of(batch.switches, batch.quads.len() as int), batch.quads.len() as int),
        forall|i: int, k: int|
            #![trigger runs_of(batch.switches, batch.quads.len() as int)[i], texture_at(batch.switches, k)]
            0 <= i < runs_of(batch.switches, batch.quads.len() as int).len() && runs_of(
                batch.switches,
                batch.quads.len() as int,
            )[i].first <= k < runs_of(batch.switches, batch.quads.len() as int)[i].first
                + runs_of(batch.switches, batch.quads.len() as int)[i].count ==> texture_at(
                batch.switches,
                k,
            ) == runs_of(batch.switches, batch.quads.len() as int)[i].texture,
{
    runs_to_partition(
        batch.switches,
        batch.quads.len() as int,
        batch.switches.len() as int,
    );
}

spec fn painted_right(switches: Seq<Switch>, runs: Seq<UiRun>) -> bool {
    forall|i: int, k: int|
        #![trigger runs[i], texture_at(switches, k)]
        0 <= i < runs.len() && runs[i].first <= k < runs[i].first + runs[i].count ==> texture_at(
            switches,
            k,
        ) == runs[i].texture
}

proof fn runs_to_partition(switches: Seq<Switch>, total: int, n: int)
    requires
        0 <= n <= switches.len(),
        0 <= total <= u32::MAX,
        forall|i: int, j: int|
            0 <= i < j < switches.len() ==> (#[trigger] switches[i]).first < (
            #[trigger] switches[j]).first,
        forall|i: int| 0 <= i < switches.len() ==> (#[trigger] switches[i]).first <= total,
    ensures
        follow_on(runs_to(switches, total, n), end_of(switches, total, n - 1)),
        painted_right(switches, runs_to(switches, total, n)),
    decreases n,
{
    let runs = runs_to(switches, total, n);
    let end = end_of(switches, total, n - 1);
    if n == 0 {
        if end > 0 {
            assert(runs.drop_last() =~= Seq::<UiRun>::empty());
            assert(follow_on(runs.drop_last(), 0));
            assert(runs.last().first == 0 && runs.last().count == end);
        }
        assert forall|i: int, k: int|
            #![trigger runs[i], texture_at(switches, k)]
            0 <= i < runs.len() && runs[i].first <= k < runs[i].first
                + runs[i].count implies texture_at(switches, k) == runs[i].texture by {
            texture_between(switches, total, -1, k);
        }
    } else {
        runs_to_partition(switches, total, n - 1);
        let earlier = runs_to(switches, total, n - 1);
        let first = switches[n - 1].first as int;
        assert(end_of(switches, total, n - 2) == first);
        assert(end >= first) by {
            if n < switches.len() {
                assert(switches[n - 1].first < switches[n].first);
            }
        }
        if end > first {
            assert(runs.drop_last() =~= earlier);
            assert(runs.last().first == first && runs.last().count == end - first);
        } else {
            assert(runs =~= earlier);
        }
        assert forall|i: int, k: int|
            #![trigger runs[i], texture_at(switches, k)]
            0 <= i < runs.len() && runs[i].first <= k < runs[i].first
                + runs[i].count implies texture_at(switches, k) == runs[i].texture by {
            if i < earlier.len() {
                assert(runs[i] == earlier[i]);
            } else {
                texture_between(switches, total, n - 1, k);
            }
        }
    }
}

/// Between change `i` and the next, the texture is change `i`'s.
proof fn texture_between(switches: Seq<Switch>, total: int, i: int, k: int)
    requires
        -1 <= i < switches.len(),
        forall|a: int, b: int|
            0 <= a < b < switches.len() ==> (#[trigger] switches[a]).first < (
            #[trigger] switches[b]).first,
        i >= 0 ==> switches[i].first <= k,
        k < end_of(switches, total, i),
        forall|a: int| 0 <= a < switches.len() ==> (#[trigger] switches[a]).first <= total,
    ensures
        texture_at(switches, k) == if i >= 0 {
            switches[i].texture
        } else {
            None
        },
    decreases switches.len(),
{
    if switches.len() > 0 {
        let front = switches.drop_last();
        if i == switches.len() - 1 {
            assert(switches.last() == switches[i]);
        } else {
            assert(switches[i + 1].first <= switches.last().first) by {
                if i + 1 < switches.len() - 1 {
                    assert(switches[i + 1].first < switches[switches.len() - 1].first);
                }
            }
            assert(k < switches.last().first);
            assert forall|a: int, b: int| 0 <= a < b < front.len() implies (
            #[trigger] front[a]).first < (#[trigger] front[b]).first by {
                assert(front[a] == switches[a] && front[b] == switches[b]);
            }
            if i == switches.len() - 2 {
                texture_between(front, switches.last().first as int, i, k);
            } else {
                assert(front[i + 1] == switches[i + 1]);
                texture_between(front, switches.last().first as int, i, k);
            }
        }
    }
}

/// An atlas, as pixels.
#[derive(Debug)]
pub struct UiAtlasImage {
    pub handle: TextureHandle,
    pub width: u32,
    pub height: u32,
    pub rgba: Vec<u8>,
}

/// Whether an image has pixels, and exactly four bytes to each.
pub open spec fn has_its_pixels(image: UiAtlasImage) -> bool {
    image.width > 0 && image.height > 0 && image.rgba@.len() == image.width * image.height * 4
}

impl UiAtlasImage {
    /// Whether there are pixels, and exactly four bytes to each.
    pub fn is_valid(&self) -> (r: bool)
        ensures
            r == has_its_pixels(*self),
    {
        proof {
            assert(self.width * self.height <= 0xffff_ffff * 0xffff_ffff) by (nonlinear_arith)
                requires
                    0 <= self.width <= 0xffff_ffff,
                    0 <= self.height <= 0xffff_ffff,
            ;
            assert(0 <= self.width * self.height) by (nonlinear_arith)
                requires
                    0 <= self.width,
                    0 <= self.height,
            ;
        }
        let texels: u128 = (self.width as u128) * (self.height as u128);
        self.width > 0 && self.height > 0 && self.rgba.len() as u128 == texels * 4
    }
}

/// How large a buffer becomes that has to hold `needed`: as it is where that is
/// enough, else at least twice as large.
pub open spec fn grown(capacity: u32, needed: u32) -> u32 {
    if needed <= capacity {
        capacity
    } else if needed as int >= 2 * capacity {
        needed
    } else if 2 * capacity > u32::MAX {
        u32::MAX
    } else {
        (2 * capacity) as u32
    }
}

/// The capacity to grow to.
pub fn grow(capacity: u32, needed: u32) -> (r: u32)
    ensures
        r == grown(capacity, needed),
        r >= needed,
        r >= capacity,
{
    if needed <= capacity {
        return capacity;
    }
    let doubled: u32 = if capacity > u32::MAX / 2 {
        u32::MAX
    } else {
        capacity * 2
    };
    if needed > doubled {
        needed
    } else {
        doubled
    }
}

/// How many bytes a buffer of `capacity` elements takes.
pub open spec fn bytes_for(stride: u64, capacity: u32) -> int {
    stride * (if capacity == 0 {
        1
    } else {
        capacity as int
    })
}

/// How many bytes a buffer of `capacity` elements takes; there is always room for
/// one.
pub fn buffer_size(stride: u64, capacity: u32) -> (r: u64)
    requires
        stride <= 0xffff_ffff,
    ensures
        r == bytes_for(stride, capacity),
{
    let count: u64 = if capacity == 0 {
        1
    } else {
        capacity as u64
    };
    proof {
        assert(stride * count <= 0xffff_ffff * 0xffff_ffff) by (nonlinear_arith)
            requires
                0 <= stride <= 0xffff_ffff,
                0 <= count <= 0xffff_ffff,
        ;
    }
    stride * count
}

/// The bindings that the pass has made, and the last atlas it complained about.
pub struct UiAtlases {
    bound: HashSet<u64>,
    warned: Option<TextureHandle>,
}

/// What a run's texture comes to.
#[derive(Clone, Copy, Debug, PartialEq, Eq, Structural, Hash)]
pub struct AtlasStep {
    /// What to draw with; `None` is plain white.
    pub key: Option<TextureHandle>,
    /// Whether a binding has to be made first.
    pub bind: bool,
    /// Whether to say that the texture is missing.
    pub warn: bool,
}

/// Whether `r` is what a texture comes to for a pass that has made the bindings
/// `before`, and `after` what it has made then.
pub open spec fn resolves(
    before: UiAtlases,
    atlas: Option<TextureHandle>,
    resident: Set<u64>,
    after: UiAtlases,
    r: AtlasStep,
) -> bool {
    match atlas {
        None => {
            &&& r == (AtlasStep { key: None, bind: false, warn: false })
            &&& after.bound() == before.bound()
            &&& after.warned() == before.warned()
        },
        Some(h) => if resident.contains(h.0) {
            &&& r == (AtlasStep {
                key: Some(h),
                bind: !before.bound().contains(h.0),
                warn: false,
            })
            &&& after.bound() == before.bound().insert(h.0)
            &&& after.warned() == before.warned()
        } else {
            &&& r == (AtlasStep { key: None, bind: false, warn: before.warned() != Some(h) })
            &&& after.bound() == before.bound().remove(h.0)
            &&& after.warned() == Some(h)
        },
    }
}

impl UiAtlases {
    pub closed spec fn bound(&self) -> Set<u64> {
        self.bound@
    }

    pub closed spec fn warned(&self) -> Option<TextureHandle> {
        self.warned
    }

    pub fn new() -> (r: UiAtlases)
        ensures
            r.bound() == Set::<u64>::empty(),
            r.warned() is None,
    {
        UiAtlases { bound: HashSet::new(), warned: None }
    }

    /// Resolve a texture. One that is on the GPU is drawn with, and bound where it
    /// was not; one that is not, or is no more, is drawn as white and unbound, and
    /// complained about unless it was the last one complained about.
    pub fn ensure_atlas(&mut self, atlas: Option<TextureHandle>, resident: &HashSet<u64>) -> (r:
        AtlasStep)
        ensures
            resolves(*old(self), atlas, resident@, *final(self), r),
    {
        match atlas {
            None => AtlasStep { key: None, bind: false, warn: false },
            Some(h) => {
                if resident.contains(&h.0) {
                    let bind: bool = !self.bound.contains(&h.0);
                    self.bound.insert(h.0);
                    AtlasStep { key: Some(h), bind, warn: false }
                } else {
                    self.bound.remove(&h.0);
                    let warn: bool = self.warned != Some(h);
                    self.warned = Some(h);
                    AtlasStep { key: None, bind: false, warn }
                }
            },
        }
    }

    /// Forget the binding of a texture that was replaced: the next run that asks for
    /// it binds it anew.
    pub fn forget(&mut self, handle: TextureHandle)
        ensures
            final(self).bound() == old(self).bound().remove(handle.0),
            final(self).warned() == old(self).warned(),
    {
        self.bound.remove(&handle.0);
    }
}

/// The texture that a run asks for: its own, else the batch's atlas.
pub open spec fn wanted(run: UiRun, atlas: Option<TextureHandle>) -> Option<TextureHandle> {
    if run.texture is Some {
        run.texture
    } else {
        atlas
    }
}

/// A run that asks for a texture which is not on the GPU, or is there no more, is
/// drawn white, whatever was bound for it before.
pub proof fn what_is_gone_is_white(
    runs: Seq<UiRun>,
    atlas: Option<TextureHandle>,
    bound: Set<u64>,
    resident: Set<u64>,
    warned: Option<TextureHandle>,
    i: int,
)
    requires
        0 <= i < runs.len(),
        wanted(runs[i], atlas) matches Some(h) ==> !resident.contains(h.0),
    ensures
        atlas_step(runs, atlas, bound, resident, warned, i).key is None,
{
}

/// The texture that a run is drawn with: the one it asks for where that is on the
/// GPU, else white. A target that was dropped is there no more.
pub open spec fn key_of(
    run: UiRun,
    atlas: Option<TextureHandle>,
    resident: Set<u64>,
) -> Option<TextureHandle> {
    match wanted(run, atlas) {
        Some(h) if resident.contains(h.0) => Some(h),
        _ => None,
    }
}

/// Whether some of the first `n` runs asks for texture `h`.
pub open spec fn asked_for(runs: Seq<UiRun>, atlas: Option<TextureHandle>, h: u64, n: int) -> bool {
    exists|j: int| 0 <= j < n && wanted(#[trigger] runs[j], atlas) == Some(TextureHandle(h))
}

/// Whether an earlier run asks for the same texture as run `i`.
pub open spec fn asked_before(runs: Seq<UiRun>, atlas: Option<TextureHandle>, i: int) -> bool {
    exists|j: int| 0 <= j < i && wanted(#[trigger] runs[j], atlas) == wanted(runs[i], atlas)
}

/// The last texture complained about once the first `n` runs are resolved.
pub open spec fn complained(
    runs: Seq<UiRun>,
    atlas: Option<TextureHandle>,
    resident: Set<u64>,
    warned: Option<TextureHandle>,
    n: int,
) -> Option<TextureHandle>
    decreases n,
{
    if n <= 0 {
        warned
    } else if wanted(runs[n - 1], atlas) is Some && key_of(runs[n - 1], atlas, resident) is None {
        wanted(runs[n - 1], atlas)
    } else {
        complained(runs, atlas, resident, warned, n - 1)
    }
}

/// What run `i`'s texture comes to, in a pass that had `bound` and had complained
/// about `warned`.
pub open spec fn atlas_step(
    runs: Seq<UiRun>,
    atlas: Option<TextureHandle>,
    bound: Set<u64>,
    resident: Set<u64>,
    warned: Option<TextureHandle>,
    i: int,
) -> AtlasStep {
    let want = wanted(runs[i], atlas);
    let key = key_of(runs[i], atlas, resident);
    AtlasStep {
        key,
        bind: key is Some && !bound.contains((key->0).0) && !asked_before(runs, atlas, i),
        warn: want is Some && key is None && complained(runs, atlas, resident, warned, i)
            != want,
    }
}

/// One thing the pass asks of the GPU.
#[derive(Clone, Copy, Debug, PartialEq, Eq, Structural, Hash)]
pub enum UiCommand {
    /// Bind a texture; `None` is plain white.
    Bind(Option<TextureHandle>),
    /// Draw the quads `first..end`.
    Draw { first: u32, end: u32 },
}

/// The commands of the first `n` runs, drawn with `keys`: a texture is bound
/// where it differs from the run's before.
pub open spec fn ui_commands(
    runs: Seq<UiRun>,
    keys: Seq<Option<TextureHandle>>,
    n: int,
) -> Seq<UiCommand>
    decreases n,
{
    if n <= 0 {
        Seq::empty()
    } else {
        let before = ui_commands(runs, keys, n - 1);
        let bound = if n == 1 || keys[n - 1] != keys[n - 2] {
            before.push(UiCommand::Bind(keys[n - 1]))
        } else {
            before
        };
        let run = runs[n - 1];
        bound.push(UiCommand::Draw { first: run.first, end: (run.first + run.count) as u32 })
    }
}

/// The overlay's pass, as far as it is not on the GPU.
pub struct UiPass {
    pub atlases: UiAtlases,
    pub capacity: u32,
}

/// What to do to draw an overlay.
#[derive(Debug)]
pub struct UiPlan {
    /// The capacity to grow the quad buffer to, where it is too small.
    pub grow: Option<u32>,
    /// What each run's texture comes to.
    pub steps: Vec<AtlasStep>,
    pub commands: Vec<UiCommand>,
}

/// The textures that the steps resolved to.
pub open spec fn step_keys(steps: Seq<AtlasStep>) -> Seq<Option<TextureHandle>> {
    steps.map_values(|s: AtlasStep| s.key)
}

/// Whether `r` is how a pass that is `before` draws `quads` quads, cut into `runs`, and
/// `after` what becomes of the pass.
pub open spec fn encodes(
    before: UiPass,
    quads: u32,
    runs: Seq<UiRun>,
    atlas: Option<TextureHandle>,
    resident: Set<u64>,
    after: UiPass,
    r: UiPlan,
) -> bool {
    &&& after.capacity == grown(before.capacity, quads)
    &&& r.grow == if quads <= before.capacity {
        None
    } else {
        Some(grown(before.capacity, quads))
    }
    &&& r.steps@.len() == runs.len()
    &&& forall|i: int|
        0 <= i < runs.len() ==> #[trigger] r.steps@[i] == atlas_step(
            runs,
            atlas,
            before.atlases.bound(),
            resident,
            before.atlases.warned(),
            i,
        )
    &&& r.commands@ == ui_commands(runs, step_keys(r.steps@), runs.len() as int)
    &&& forall|h: u64| #[trigger]
        after.atlases.bound().contains(h) <==> if asked_for(runs, atlas, h, runs.len() as int) {
            resident.contains(h)
        } else {
            before.atlases.bound().contains(h)
        }
    &&& after.atlases.warned() == complained(
        runs,
        atlas,
        resident,
        before.atlases.warned(),
        runs.len() as int,
    )
}

impl UiPass {
    pub fn new() -> (r: UiPass)
        ensures
            r.capacity == INITIAL_QUAD_CAPACITY,
            r.atlases.bound() == Set::<u64>::empty(),
            r.atlases.warned() is None,
    {
        UiPass { atlases: UiAtlases::new(), capacity: INITIAL_QUAD_CAPACITY }
    }

    /// Forget the binding of a texture that was replaced.
    pub fn forget(&mut self, handle: TextureHandle)
        ensures
            final(self).atlases.bound() == old(self).atlases.bound().remove(handle.0),
            final(self).atlases.warned() == old(self).atlases.warned(),
            final(self).capacity == old(self).capacity,
    {
        self.atlases.forget(handle);
    }

    /// How many quads the buffer holds.
    pub fn capacity(&self) -> (r: u32)
        ensures
            r == self.capacity,
    {
        self.capacity
    }

    /// Plan the drawing of `quads` quads, cut into `runs`.
    pub fn encode(
        &mut self,
        quads: u32,
        runs: &Vec<UiRun>,
        atlas: Option<TextureHandle>,
        resident: &HashSet<u64>,
    ) -> (r: UiPlan)
        requires
            forall|i: int|
                0 <= i < runs@.len() ==> (#[trigger] runs@[i]).first + runs@[i].count <= u32::MAX,
        ensures
            encodes(*old(self), quads, runs@, atlas, resident@, *final(self), r),
    {
        let ghost bound = self.atlases.bound();
        let ghost warned = self.atlases.warned();
        let grow_to: Option<u32> = if quads <= self.capacity {
            None
        } else {
            Some(grow(self.capacity, quads))
        };
        self.capacity = grow(self.capacity, quads);

        let mut steps: Vec<AtlasStep> = Vec::new();
        let mut i: usize = 0;
        while i < runs.len()
            invariant
                i <= runs.len(),
                steps.len() == i,
                self.capacity == grown(old(self).capacity, quads),
                bound == old(self).atlases.bound(),
                warned == old(self).atlases.warned(),
                forall|j: int|
                    0 <= j < i ==> #[trigger] steps@[j] == atlas_step(
                        runs@,
                        atlas,
                        bound,
                        resident@,
                        warned,
                        j,
                    ),
                forall|h: u64| #[trigger]
                    self.atlases.bound().contains(h) <==> if asked_for(runs@, atlas, h, i as int) {
                        resident@.contains(h)
                    } else {
                        bound.contains(h)
                    },
                self.atlases.warned() == complained(runs@, atlas, resident@, warned, i as int),
            decreases runs.len() - i,
        {
            let texture: Option<TextureHandle> = if runs[i].texture.is_some() {
                runs[i].texture
            } else {
                atlas
            };
            let ghost before = self.atlases.bound();
            let step = self.atlases.ensure_atlas(texture, resident);
            proof {
                assert(texture == wanted(runs@[i as int], atlas));
                if texture is Some {
                    let h = (texture->0).0;
                    assert(texture == Some(TextureHandle(h)));
                    assert(before.contains(h) <==> if asked_for(runs@, atlas, h, i as int) {
                        resident@.contains(h)
                    } else {
                        bound.contains(h)
                    });
                    assert(asked_before(runs@, atlas, i as int) == asked_for(
                        runs@,
                        atlas,
                        h,
                        i as int,
                    ));
                }
                assert(step == atlas_step(runs@, atlas, bound, resident@, warned, i as int));
                assert forall|h: u64| #[trigger]
                    self.atlases.bound().contains(h) <==> if asked_for(runs@, atlas, h, i + 1) {
                        resident@.contains(h)
                    } else {
                        bound.contains(h)
                    } by {
                    assert(before.contains(h) <==> if asked_for(runs@, atlas, h, i as int) {
                        resident@.contains(h)
                    } else {
                        bound.contains(h)
                    });
                    if texture == Some(TextureHandle(h)) {
                        assert(wanted(runs@[i as int], atlas) == Some(TextureHandle(h)));
                        assert(asked_for(runs@, atlas, h, i + 1));
                    } else {
                        assert(asked_for(runs@, atlas, h, i + 1) == asked_for(
                            runs@,
                            atlas,
                            h,
                            i as int,
                        ));
                    }
                }
            }
            steps.push(step);
            i = i + 1;
        }

        let mut commands: Vec<UiCommand> = Vec::new();
        let ghost keys = step_keys(steps@);
        let mut k: usize = 0;
        while k < runs.len()
            invariant
                k <= runs.len(),
                steps.len() == runs.len(),
                keys == step_keys(steps@),
                forall|i: int|
                    0 <= i < runs@.len() ==> (#[trigger] runs@[i]).first + runs@[i].count
                        <= u32::MAX,
                commands@ == ui_commands(runs@, keys, k as int),
            decreases runs.len() - k,
        {
            let key: Option<TextureHandle> = steps[k].key;
            if k == 0 || steps[k - 1].key != key {
                commands.push(UiCommand::Bind(key));
            }
            let run = runs[k];
            commands.push(UiCommand::Draw { first: run.first, end: run.first + run.count });
            k = k + 1;
        }
        UiPlan { grow: grow_to, steps, commands }
    }
}

/// A draw, with the texture that was bound when it was issued.
pub struct SeenDraw {
    pub bound: Option<Option<TextureHandle>>,
    pub first: u32,
    pub end: u32,
}

/// The texture bound once `commands` are through.
pub open spec fn bound_after(commands: Seq<UiCommand>) -> Option<Option<TextureHandle>>
    decreases commands.len(),
{
    if commands.len() == 0 {
        None
    } else {
        match commands.last() {
            UiCommand::Bind(key) => Some(key),
            UiCommand::Draw { .. } => bound_after(commands.drop_last()),
        }
    }
}

/// The draws that `commands` issue, with what was bound for each.
pub open spec fn draws_seen(commands: Seq<UiCommand>) -> Seq<SeenDraw>
    decreases commands.len(),
{
    if commands.len() == 0 {
        Seq::empty()
    } else {
        let before = draws_seen(commands.drop_last());
        match commands.last() {
            UiCommand::Bind(_) => before,
            UiCommand::Draw { first, end } => before.push(
                SeenDraw { bound: bound_after(commands.drop_last()), first, end },
            ),
        }
    }
}

/// Leaving out a binding that is there already changes nothing: every run is
/// drawn once, in order, with its own texture bound.
pub proof fn every_run_is_drawn_with_its_texture(
    runs: Seq<UiRun>,
    keys: Seq<Option<TextureHandle>>,
    n: int,
)
    requires
        0 <= n <= runs.len(),
        keys.len() == runs.len(),
    ensures
        draws_seen(ui_commands(runs, keys, n)) == Seq::new(
            n as nat,
            |i: int|
                SeenDraw {
                    bound: Some(keys[i]),
                    first: runs[i].first,
                    end: (runs[i].first + runs[i].count) as u32,
                },
        ),
        n > 0 ==> bound_after(ui_commands(runs, keys, n)) == Some(keys[n - 1]),
    decreases n,
{
    let want = Seq::new(
        n as nat,
        |i: int|
            SeenDraw {
                bound: Some(keys[i]),
                first: runs[i].first,
                end: (runs[i].first + runs[i].count) as u32,
            },
    );
    if n > 0 {
        every_run_is_drawn_with_its_texture(runs, keys, n - 1);
        let before = ui_commands(runs, keys, n - 1);
        let bind = UiCommand::Bind(keys[n - 1]);
        assert(before.push(bind).drop_last() =~= before);
        let bound = if n == 1 || keys[n - 1] != keys[n - 2] {
            before.push(bind)
        } else {
            before
        };
        let all = ui_commands(runs, keys, n);
        assert(all.drop_last() =~= bound);
        assert(bound_after(bound) == Some(keys[n - 1]));
        assert(draws_seen(bound) == draws_seen(before));
        assert(draws_seen(all) =~= want);
    } else {
        assert(draws_seen(ui_commands(runs, keys, n)) =~= want);
    }
}

} // verus!
