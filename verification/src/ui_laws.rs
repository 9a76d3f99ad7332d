//! What the overlay's pass is for: every stretch of quads is drawn, with the texture it
//! was painted with, and there is room for all of them.

use vstd::prelude::*;
use crate::float::{F32, Vec4, below};
use crate::texture::TextureHandle;
use crate::ui::{
    AtlasStep, SeenDraw, UiAtlasImage, UiAtlases, UiPass, UiPlan, UiRun, asked_before, asked_for,
    bytes_for, complained, draws_seen, encodes, every_run_is_drawn_with_its_texture, grown,
    has_its_pixels, key_of, premultiplied, resolves, solid_uv, step_keys, wanted,
};

verus! {

/// Whether `texture` is one that is on the GPU.
pub open spec fn is_there(texture: Option<TextureHandle>, resident: Set<u64>) -> bool {
    texture is Some && resident.contains((texture->0).0)
}

/// Whether `r` draws the quads of `run`, all of them and no others: with its own texture,
/// or the atlas where it has none, if that is on the GPU; and white otherwise.
pub open spec fn drawn_as_painted(
    run: UiRun,
    atlas: Option<TextureHandle>,
    resident: Set<u64>,
    r: SeenDraw,
) -> bool {
    &&& r.first == run.first
    &&& r.end == run.first + run.count
    &&& is_there(run.texture, resident) ==> r.bound == Some(run.texture)
    &&& run.texture is None && is_there(atlas, resident) ==> r.bound == Some(atlas)
    &&& run.texture is Some && !is_there(run.texture, resident) ==> r.bound == Some(
        None::<TextureHandle>,
    )
    &&& run.texture is None && !is_there(atlas, resident) ==> r.bound == Some(
        None::<TextureHandle>,
    )
}

/// Every stretch is drawn once, in the order they were painted, each with the texture it
/// was painted with.
pub proof fn an_overlay_is_drawn_as_it_was_painted(
    before: UiPass,
    quads: u32,
    runs: Seq<UiRun>,
    atlas: Option<TextureHandle>,
    resident: Set<u64>,
    after: UiPass,
    r: UiPlan,
)
    requires
        encodes(before, quads, runs, atlas, resident, after, r),
        forall|i: int| 0 <= i < runs.len() ==> (#[trigger] runs[i]).first + runs[i].count <= u32::MAX,
    ensures
        draws_seen(r.commands@).len() == runs.len(),
        forall|i: int|
            0 <= i < runs.len() ==> drawn_as_painted(
                #[trigger] runs[i],
                atlas,
                resident,
                draws_seen(r.commands@)[i],
            ),
{
    let keys = step_keys(r.steps@);
    every_run_is_drawn_with_its_texture(runs, keys, runs.len() as int);
    assert forall|i: int| 0 <= i < runs.len() implies drawn_as_painted(
        #[trigger] runs[i],
        atlas,
        resident,
        draws_seen(r.commands@)[i],
    ) by {
        assert(keys[i] == r.steps@[i].key);
    }
}

/// Whether run `i` asks for a texture, its own or the atlas, that is not on the GPU.
pub open spec fn asks_in_vain(
    runs: Seq<UiRun>,
    atlas: Option<TextureHandle>,
    resident: Set<u64>,
    i: int,
) -> bool {
    if runs[i].texture is Some {
        !is_there(runs[i].texture, resident)
    } else {
        atlas is Some && !is_there(atlas, resident)
    }
}

/// Whether the binding for `key` was there, or is made at run `i` or before it.
pub open spec fn has_a_binding(
    bound: Set<u64>,
    steps: Seq<AtlasStep>,
    key: TextureHandle,
    i: int,
) -> bool {
    bound.contains(key.0) || exists|j: int|
        0 <= j <= i && (#[trigger] steps[j]).bind && steps[j].key == Some(key)
}

proof fn the_first_that_asks_binds(
    before: UiPass,
    quads: u32,
    runs: Seq<UiRun>,
    atlas: Option<TextureHandle>,
    resident: Set<u64>,
    after: UiPass,
    r: UiPlan,
    i: int,
)
    requires
        encodes(before, quads, runs, atlas, resident, after, r),
        0 <= i < runs.len(),
        r.steps@[i].key is Some,
    ensures
        has_a_binding(before.atlases.bound(), r.steps@, r.steps@[i].key->0, i),
    decreases i,
{
    if asked_before(runs, atlas, i) {
        let j = choose|j: int|
            0 <= j < i && wanted(#[trigger] runs[j], atlas) == wanted(runs[i], atlas);
        assert(r.steps@[j].key == r.steps@[i].key);
        the_first_that_asks_binds(before, quads, runs, atlas, resident, after, r, j);
    } else {
        assert(r.steps@[i].bind || before.atlases.bound().contains((r.steps@[i].key->0).0));
    }
}

/// A texture is bound before it is drawn with, and once; and the bindings of what is drawn
/// with stay.
pub proof fn a_texture_is_bound_once(
    before: UiPass,
    quads: u32,
    runs: Seq<UiRun>,
    atlas: Option<TextureHandle>,
    resident: Set<u64>,
    after: UiPass,
    r: UiPlan,
)
    requires
        encodes(before, quads, runs, atlas, resident, after, r),
    ensures
        forall|i: int|
            0 <= i < runs.len() && (#[trigger] r.steps@[i]).key is Some ==> has_a_binding(
                before.atlases.bound(),
                r.steps@,
                r.steps@[i].key->0,
                i,
            ) && after.atlases.bound().contains((r.steps@[i].key->0).0),
        forall|i: int|
            0 <= i < runs.len() && (#[trigger] r.steps@[i]).bind ==> is_there(
                r.steps@[i].key,
                resident,
            ) && !before.atlases.bound().contains((r.steps@[i].key->0).0),
        forall|i: int, j: int|
            0 <= i < j < runs.len() && (#[trigger] r.steps@[i]).bind && (
            #[trigger] r.steps@[j]).bind ==> r.steps@[i].key != r.steps@[j].key,
{
    assert forall|i: int|
        0 <= i < runs.len() && (#[trigger] r.steps@[i]).key is Some implies has_a_binding(
        before.atlases.bound(),
        r.steps@,
        r.steps@[i].key->0,
        i,
    ) && after.atlases.bound().contains((r.steps@[i].key->0).0) by {
        the_first_that_asks_binds(before, quads, runs, atlas, resident, after, r, i);
        let h = (r.steps@[i].key->0).0;
        assert(wanted(runs[i], atlas) == Some(TextureHandle(h)));
        assert(asked_for(runs, atlas, h, runs.len() as int));
    }
    assert forall|i: int, j: int|
        0 <= i < j < runs.len() && (#[trigger] r.steps@[i]).bind && (
        #[trigger] r.steps@[j]).bind implies r.steps@[i].key != r.steps@[j].key by {
        if r.steps@[i].key == r.steps@[j].key {
            assert(wanted(runs[i], atlas) == wanted(runs[j], atlas));
            assert(asked_before(runs, atlas, j));
        }
    }
}

proof fn nothing_is_complained_about(
    runs: Seq<UiRun>,
    atlas: Option<TextureHandle>,
    resident: Set<u64>,
    warned: Option<TextureHandle>,
    from: int,
    n: int,
)
    requires
        0 <= from <= n <= runs.len(),
        forall|k: int| from <= k < n ==> !asks_in_vain(runs, atlas, resident, k),
    ensures
        complained(runs, atlas, resident, warned, n) == complained(
            runs,
            atlas,
            resident,
            warned,
            from,
        ),
    decreases n,
{
    if from < n {
        nothing_is_complained_about(runs, atlas, resident, warned, from, n - 1);
        assert(!asks_in_vain(runs, atlas, resident, n - 1));
    }
}

/// What is missing is complained about where it is first asked for, and again only once
/// something else was missing.
pub proof fn what_is_missing_is_complained_about_once(
    before: UiPass,
    quads: u32,
    runs: Seq<UiRun>,
    atlas: Option<TextureHandle>,
    resident: Set<u64>,
    after: UiPass,
    r: UiPlan,
    i: int,
)
    requires
        encodes(before, quads, runs, atlas, resident, after, r),
        0 <= i < runs.len(),
    ensures
        r.steps@[i].warn ==> asks_in_vain(runs, atlas, resident, i),
        asks_in_vain(runs, atlas, resident, i) && (forall|k: int|
            0 <= k < i ==> !asks_in_vain(runs, atlas, resident, k)) ==> r.steps@[i].warn == (
        before.atlases.warned() != if runs[i].texture is Some {
            runs[i].texture
        } else {
            atlas
        }),
        forall|j: int|
            0 <= j < i && #[trigger] asks_in_vain(runs, atlas, resident, j) && asks_in_vain(
                runs,
                atlas,
                resident,
                i,
            ) && (forall|k: int| j < k < i ==> !asks_in_vain(runs, atlas, resident, k))
                ==> r.steps@[i].warn == (runs[j].texture != runs[i].texture && !(
            runs[j].texture is None && runs[i].texture == atlas) && !(runs[i].texture is None
                && runs[j].texture == atlas)),
{
    let warned = before.atlases.warned();
    assert(r.steps@[i].key == key_of(runs[i], atlas, resident));
    if forall|k: int| 0 <= k < i ==> !asks_in_vain(runs, atlas, resident, k) {
        nothing_is_complained_about(runs, atlas, resident, warned, 0, i);
    }
    assert forall|j: int|
        0 <= j < i && #[trigger] asks_in_vain(runs, atlas, resident, j) && asks_in_vain(
            runs,
            atlas,
            resident,
            i,
        ) && (forall|k: int|
            j < k < i ==> !asks_in_vain(runs, atlas, resident, k)) implies r.steps@[i].warn == (
    runs[j].texture != runs[i].texture && !(runs[j].texture is None && runs[i].texture == atlas)
        && !(runs[i].texture is None && runs[j].texture == atlas)) by {
        nothing_is_complained_about(runs, atlas, resident, warned, j + 1, i);
        assert(complained(runs, atlas, resident, warned, j + 1) == wanted(runs[j], atlas));
    }
}

/// A buffer that has to hold more grows to hold it, and to twice what it was if that is
/// more; one that has room is left alone.
pub proof fn there_is_room_for_what_is_needed(capacity: u32, needed: u32)
    ensures
        ({
            let r = grown(capacity, needed);
            &&& r >= needed
            &&& needed <= capacity ==> r == capacity
            &&& needed > capacity ==> r >= 2 * capacity || r == u32::MAX
            &&& r > needed ==> r <= 2 * capacity
                || r == capacity
        }),
{
}

/// The pass grows its buffer where the quads do not fit, and has room for them then.
pub proof fn a_pass_has_room_for_its_quads(
    before: UiPass,
    quads: u32,
    runs: Seq<UiRun>,
    atlas: Option<TextureHandle>,
    resident: Set<u64>,
    after: UiPass,
    r: UiPlan,
)
    requires
        encodes(before, quads, runs, atlas, resident, after, r),
    ensures
        after.capacity >= quads,
        after.capacity >= before.capacity,
        quads <= before.capacity ==> r.grow is None && after.capacity == before.capacity,
        quads > before.capacity ==> r.grow == Some(after.capacity) && (after.capacity >= 2
            * before.capacity || after.capacity == u32::MAX),
{
}

/// One texture at a time: what is on the GPU is drawn with and has a binding then; what is
/// not is drawn white and has none.
pub proof fn a_texture_comes_to_itself_or_white(
    before: UiAtlases,
    atlas: Option<TextureHandle>,
    resident: Set<u64>,
    after: UiAtlases,
    r: AtlasStep,
    other: u64,
)
    requires
        resolves(before, atlas, resident, after, r),
    ensures
        r.key == if is_there(atlas, resident) {
            atlas
        } else {
            None
        },
        r.bind <==> is_there(atlas, resident) && !before.bound().contains((atlas->0).0),
        r.warn <==> atlas is Some && !is_there(atlas, resident) && before.warned() != atlas,
        atlas is Some ==> after.bound().contains((atlas->0).0) == is_there(atlas, resident),
        atlas != Some(TextureHandle(other)) ==> after.bound().contains(other)
            == before.bound().contains(other),
        after.warned() == if atlas is Some && !is_there(atlas, resident) {
            atlas
        } else {
            before.warned()
        },
{
}

/// A colour keeps its alpha, and each of its other parts is multiplied by it.
pub proof fn alpha_is_multiplied_in<M: Fn(F32, F32) -> F32>(times: M, color: Vec4, r: Vec4)
    requires
        premultiplied(times, color, r),
    ensures
        r.w == color.w,
        times.ensures((color.x, color.w), r.x),
        times.ensures((color.y, color.w), r.y),
        times.ensures((color.z, color.w), r.z),
{
}

/// A quad of one colour is known by texture coordinates that no texture has: they are
/// below zero.
pub proof fn a_solid_quad_is_no_part_of_a_texture()
    ensures
        below(solid_uv().x, F32(0)),
        below(solid_uv().y, F32(0)),
        below(solid_uv().z, F32(0)),
        below(solid_uv().w, F32(0)),
{
}

/// A buffer has room for all its elements, and for one where it has none.
pub proof fn a_buffer_has_room_for_its_elements(stride: u64, capacity: u32, more: u32)
    requires
        more == capacity + 1,
    ensures
        bytes_for(stride, 0) == stride,
        capacity > 0 ==> bytes_for(stride, more) == bytes_for(stride, capacity) + stride,
        capacity == 1 ==> bytes_for(stride, capacity) == stride,
{
    assert(stride * (capacity + 1) == stride * capacity + stride) by (nonlinear_arith);
    assert(stride * 1 == stride) by (nonlinear_arith);
}

/// An image that is taken has every pixel of every row, red, green, blue and alpha, and
/// not a byte more.
pub proof fn an_image_has_every_pixel(image: UiAtlasImage, x: int, y: int, channel: int)
    requires
        has_its_pixels(image),
        0 <= x < image.width,
        0 <= y < image.height,
        0 <= channel < 4,
    ensures
        0 <= (y * image.width + x) * 4 + channel < image.rgba@.len(),
        x == image.width - 1 && y == image.height - 1 && channel == 3 ==> (y * image.width + x) * 4
            + channel == image.rgba@.len() - 1,
{
    let (w, h) = (image.width as int, image.height as int);
    assert(0 <= y * w + x <= w * h - 1) by (nonlinear_arith)
        requires
            0 <= x < w,
            0 <= y < h,
    ;
    if x == w - 1 && y == h - 1 {
        assert(y * w + x == w * h - 1) by (nonlinear_arith)
            requires
                x == w - 1,
                y == h - 1,
        ;
    }
}

} // verus!
