//! What holds of a renderer over several frames.
use crate::backdrop::BackdropScratch;
use crate::commands::{FrameParams, Progress};
use crate::float::Float32;
use crate::float::{lemma_from_nat_value, one};
use crate::frame::frame_drawn;
use crate::frame_painting::{
    batch_usable, batch_words, blur_marks, blurs_due, blurs_shown, law_frame_shows_everything,
};
use crate::geometry::{DevicePixels, Size};
use crate::geometry_laws::is_whole;
use crate::pipelines::Blend;
use crate::quad_painting::shown_at;
use crate::frame_laws::{law_frame_is_sound, lemma_scratch_stays_valid, sound};
use crate::renderer::{
    attempt_made, attempts_made, context_needed, grown_capacity, Attempt, AttemptEnd, DeviceLimits,
    ResizeAction, SurfaceStatus, WgpuRenderer, MAX_FAILED_FRAMES, SCRATCH_RELEASE_AFTER_FRAMES,
};
use crate::replay::replay;
use crate::scene::{PrimitiveBatch, Scene};
use crate::surface::{
    law_alpha_modes, law_format_is_offered, AdapterInfo, CompositeAlphaMode, PresentMode,
    RenderingParameters, SurfaceCapabilities, SurfaceError, WgpuSurfaceConfig,
};
use vstd::prelude::*;

verus! {

/// A frame is drawn in finitely many attempts. All but the last make the instance
/// buffer larger; the last one submits the frame, or gives up because the buffer
/// cannot grow. The buffer does not shrink, and does not grow beyond what the
/// device allows.
pub proof fn law_drawing_ends(
    params: FrameParams,
    max_buffer_size: u64,
    scratch: Option<BackdropScratch>,
    scene: Scene,
    batches: Seq<PrimitiveBatch>,
    kernels: Seq<Vec<Float32>>,
)
    requires
        params.capacity > 0,
    ensures
        ({
            let d = attempts_made(params, max_buffer_size, scratch, scene, batches, kernels);
            &&& d.attempts.len() > 0
            &&& forall|i: int|
                0 <= i < d.attempts.len() - 1 ==> (#[trigger] d.attempts[i]).end is Grow
            &&& !(d.attempts.last().end is Grow)
            &&& d.attempts.last().end is GiveUp ==> d.capacity >= max_buffer_size
            &&& params.capacity <= d.capacity
            &&& d.capacity <= max_buffer_size || d.capacity == params.capacity
        }),
    decreases max_buffer_size - params.capacity,
{
    reveal(attempt_made);
    let (attempt, after) = attempt_made(
        params,
        max_buffer_size,
        scratch,
        scene,
        batches,
        kernels,
    );
    let d = attempts_made(params, max_buffer_size, scratch, scene, batches, kernels);
    if let AttemptEnd::Grow { capacity } = attempt.end {
        let next = FrameParams { capacity, ..params };
        law_drawing_ends(next, max_buffer_size, after, scene, batches, kernels);
        let rest = attempts_made(next, max_buffer_size, after, scene, batches, kernels);
        assert(d.attempts == seq![attempt] + rest.attempts);
        assert forall|i: int| 0 <= i < d.attempts.len() - 1 implies (
        #[trigger] d.attempts[i]).end is Grow by {
            if i > 0 {
                assert(d.attempts[i] == rest.attempts[i - 1]);
            }
        }
        assert(d.attempts.last() == rest.attempts.last());
    }
}

/// Every attempt at a frame is a sound recording for an instance buffer that is
/// not larger than the one in the end.
pub proof fn law_attempts_are_sound(
    params: FrameParams,
    max_buffer_size: u64,
    scratch: Option<BackdropScratch>,
    scene: Scene,
    batches: Seq<PrimitiveBatch>,
    kernels: Seq<Vec<Float32>>,
    i: int,
)
    requires
        params.valid(),
        params.capacity > 0,
        scratch is Some ==> scratch->0.valid(),
        0 <= i < attempts_made(
            params,
            max_buffer_size,
            scratch,
            scene,
            batches,
            kernels,
        ).attempts.len(),
    ensures
        ({
            let d = attempts_made(params, max_buffer_size, scratch, scene, batches, kernels);
            exists|p: Progress, capacity: u64|
                #![trigger sound(FrameParams { capacity, ..params }, p)]
                {
                    &&& sound(FrameParams { capacity, ..params }, p)
                    &&& p.steps == d.attempts[i].steps
                    &&& capacity <= d.capacity
                }
        }),
    decreases max_buffer_size - params.capacity,
{
    reveal(attempt_made);
    law_drawing_ends(params, max_buffer_size, scratch, scene, batches, kernels);
    law_frame_is_sound(params, scratch, scene, batches, kernels);
    let d = attempts_made(params, max_buffer_size, scratch, scene, batches, kernels);
    let (attempt, after) = attempt_made(
        params,
        max_buffer_size,
        scratch,
        scene,
        batches,
        kernels,
    );
    let first = frame_drawn(params, scratch, scene, batches, kernels).0;
    if i == 0 {
        let capacity = params.capacity;
        assert(FrameParams { capacity, ..params } == params);
        assert(sound(FrameParams { capacity, ..params }, first));
        assert(first.steps == d.attempts[0].steps);
    } else if let AttemptEnd::Grow { capacity } = attempt.end {
        let next = FrameParams { capacity, ..params };
        lemma_scratch_stays_valid(params, scratch, scene, batches, kernels);
        let rest = attempts_made(next, max_buffer_size, after, scene, batches, kernels);
        assert(d.attempts == seq![attempt] + rest.attempts);
        law_attempts_are_sound(next, max_buffer_size, after, scene, batches, kernels, i - 1);
        let (p, size) = choose|p: Progress, size: u64|
            #![trigger sound(FrameParams { capacity: size, ..next }, p)]
            {
                &&& sound(FrameParams { capacity: size, ..next }, p)
                &&& p.steps == rest.attempts[i - 1].steps
                &&& size <= rest.capacity
            };
        assert(FrameParams { capacity: size, ..next } == FrameParams { capacity: size, ..params });
        assert(sound(FrameParams { capacity: size, ..params }, p));
        assert(p.steps == d.attempts[i].steps);
    }
}

/// The renderer after this many frames without blurs or errors.
pub open spec fn after_quiet_frames(renderer: WgpuRenderer, n: nat) -> WgpuRenderer
    decreases n,
{
    if n == 0 {
        renderer
    } else {
        after_quiet_frames(renderer, (n - 1) as nat).frame_started(false, false)
    }
}

/// After enough frames without a blur, no textures are held for blurs; until
/// then those that were there are kept.
pub proof fn law_scratch_is_released(renderer: WgpuRenderer, n: nat)
    requires
        renderer.surface_configured,
        renderer.resources is Some,
    ensures
        ({
            let after = after_quiet_frames(renderer, n);
            &&& after.surface_configured
            &&& after.resources is Some
            &&& n >= SCRATCH_RELEASE_AFTER_FRAMES ==> after.resources->0.backdrop_scratch is None
            &&& renderer.blur_free_frames + n < SCRATCH_RELEASE_AFTER_FRAMES ==> after.resources
                == renderer.resources
            &&& after.blur_free_frames >= n || after.blur_free_frames == u32::MAX
            &&& renderer.blur_free_frames + n <= u32::MAX ==> after.blur_free_frames
                == renderer.blur_free_frames + n
        }),
    decreases n,
{
    if n > 0 {
        law_scratch_is_released(renderer, (n - 1) as nat);
    }
}

/// The renderer after this many frames in a row for which an error was reported.
pub open spec fn after_failed_frames(renderer: WgpuRenderer, blurs: bool, n: nat) -> WgpuRenderer
    decreases n,
{
    if n == 0 {
        renderer
    } else {
        after_failed_frames(renderer, blurs, (n - 1) as nat).frame_started(true, blurs)
    }
}

/// Errors are counted from zero; up to five in a row frames go on. With the next
/// one everything that was made for the window is given up, a redraw is asked
/// for, and counting starts again.
pub proof fn law_failures_are_bounded(renderer: WgpuRenderer, blurs: bool, n: nat)
    requires
        renderer.surface_configured,
        renderer.failed_frame_count == 0,
        n <= MAX_FAILED_FRAMES,
    ensures
        ({
            let after = after_failed_frames(renderer, blurs, n);
            &&& after.surface_configured
            &&& after.failed_frame_count == n
            &&& n < MAX_FAILED_FRAMES ==> after.frame_start(true) is Acquire
            &&& n == MAX_FAILED_FRAMES ==> {
                let cleared = after.frame_started(true, blurs);
                &&& after.frame_start(true) is ClearAtlas
                &&& cleared.needs_redraw
                &&& cleared.failed_frame_count == 0
                &&& cleared == (WgpuRenderer {
                    needs_redraw: true,
                    failed_frame_count: 0,
                    ..after.invalidated()
                })
            }
        }),
    decreases n,
{
    if n > 0 {
        law_failures_are_bounded(renderer, blurs, (n - 1) as nat);
    }
}

/// Nothing is drawn, and nothing changes, while there is no surface.
pub proof fn law_no_drawing_without_surface(renderer: WgpuRenderer, failed: bool, blurs: bool)
    requires
        !renderer.surface_configured,
    ensures
        renderer.frame_start(failed) is Skip,
        renderer.frame_started(failed, blurs) == renderer,
{
}

/// A renderer that is made anew for a device that allows its size keeps the size,
/// and the presentation mode if that is still offered.
pub proof fn law_recovery_keeps_size(
    renderer: WgpuRenderer,
    caps: SurfaceCapabilities,
    limits: DeviceLimits,
    dual_source_blending: bool,
    rendering_params: RenderingParameters,
    adapter_info: AdapterInfo,
)
    requires
        0 < renderer.surface_config.width <= limits.max_texture_dimension_2d,
        0 < renderer.surface_config.height <= limits.max_texture_dimension_2d,
        limits.max_texture_dimension_2d <= i32::MAX,
    ensures
        ({
            let recovered = WgpuRenderer::created(
                renderer.same_config(),
                caps,
                limits,
                dual_source_blending,
                rendering_params,
                adapter_info,
            );
            &&& recovered.surface_config.width == renderer.surface_config.width
            &&& recovered.surface_config.height == renderer.surface_config.height
            &&& caps.present_modes@.contains(renderer.surface_config.present_mode)
                ==> recovered.surface_config.present_mode == renderer.surface_config.present_mode
            &&& recovered.surface_configured
        }),
{
}

/// A new renderer has the size that is asked for, within what textures allow and
/// at least one pixel, a format and an alpha mode that the surface offers, and
/// takes the mode for transparent windows just if it is to be transparent. It
/// waits for at most two frames, can blur exactly if the surface can be copied
/// from, has no textures yet, and nothing has failed.
pub proof fn law_new_renderer(
    config: WgpuSurfaceConfig,
    caps: SurfaceCapabilities,
    limits: DeviceLimits,
    dual_source_blending: bool,
    rendering_params: RenderingParameters,
    adapter_info: AdapterInfo,
)
    requires
        caps.formats@.len() > 0,
        caps.alpha_modes@.len() > 0,
        limits.max_texture_dimension_2d > 0,
    ensures
        ({
            let r = WgpuRenderer::created(
                config,
                caps,
                limits,
                dual_source_blending,
                rendering_params,
                adapter_info,
            );
            let (width, height) = (config.size.width.0, config.size.height.0);
            let limit = limits.max_texture_dimension_2d;
            let c = r.surface_config;
            &&& 1 <= c.width <= limit && 1 <= c.height <= limit
            &&& 1 <= width <= limit ==> c.width == width
            &&& 1 <= height <= limit ==> c.height == height
            &&& caps.formats@.contains(c.format) && caps.alpha_modes@.contains(c.alpha_mode)
            &&& config.transparent ==> c.alpha_mode == r.transparent_alpha_mode
            &&& !config.transparent ==> c.alpha_mode == r.opaque_alpha_mode
            &&& caps.alpha_modes@.contains(CompositeAlphaMode::PreMultiplied)
                ==> r.transparent_alpha_mode is PreMultiplied
            &&& caps.alpha_modes@.contains(CompositeAlphaMode::Opaque) ==> r.opaque_alpha_mode
                is Opaque
            &&& match config.preferred_present_mode {
                Some(mode) if caps.present_modes@.contains(mode) => c.present_mode == mode,
                _ => c.present_mode is Fifo,
            }
            &&& c.desired_maximum_frame_latency == 2
            &&& c.copy_source == caps.copy_source && r.backdrop_blur_supported == caps.copy_source
            &&& r.resources is Some
            &&& r.resources->0.path_intermediate is None && r.resources->0.path_msaa is None
            &&& r.resources->0.backdrop_scratch is None
            &&& r.max_texture_size == limit && r.max_buffer_size == limits.max_buffer_size
            &&& r.storage_buffer_alignment == limits.min_storage_buffer_offset_alignment
            &&& r.instance_buffer_capacity == 2 * 1024 * 1024
            &&& r.dual_source_blending == dual_source_blending
            &&& r.device_dual_source_blending == limits.dual_source_blending
            &&& r.rendering_params == rendering_params && r.adapter_info == adapter_info
            &&& r.surface_configured && !r.needs_redraw && !r.is_bgr
            &&& r.failed_frame_count == 0 && r.blur_free_frames == 0
        }),
{
    law_format_is_offered(caps.formats@);
    law_alpha_modes(caps.alpha_modes@);
}

/// A new size changes the size and drops the textures of the old one, and changes
/// nothing else. The size is the one that is asked for if textures can have it.
/// The size that is there already changes nothing. Surfaces are configured anew
/// just if the size changes and there is something to configure, and what exists
/// of the textures of paths is destroyed.
pub proof fn law_resizing(renderer: WgpuRenderer, size: Size<DevicePixels>)
    requires
        0 < size.width.0 <= renderer.max_texture_size,
        0 < size.height.0 <= renderer.max_texture_size,
    ensures
        ({
            let r = renderer.resized(size);
            let same = size.width.0 == renderer.surface_config.width && size.height.0
                == renderer.surface_config.height;
            &&& r.surface_config.width == size.width.0
            &&& r.surface_config.height == size.height.0
            &&& r.surface_config.format == renderer.surface_config.format
            &&& r.surface_config.present_mode == renderer.surface_config.present_mode
            &&& r.surface_config.alpha_mode == renderer.surface_config.alpha_mode
            &&& r.surface_config.copy_source == renderer.surface_config.copy_source
            &&& r == (WgpuRenderer {
                surface_config: r.surface_config,
                resources: r.resources,
                ..renderer
            })
            &&& r.resources is Some <==> renderer.resources is Some
            &&& same ==> r == renderer
            &&& !same && renderer.resources is Some ==> {
                &&& r.resources->0.path_intermediate is None && r.resources->0.path_msaa is None
                &&& r.resources->0.backdrop_scratch is None
            }
            &&& renderer.resize_action(size) is Keep <==> same || renderer.resources is None
            &&& renderer.resize_action(size) matches ResizeAction::Reconfigure {
                destroy_path_intermediate,
                destroy_path_msaa,
            } ==> {
                &&& destroy_path_intermediate <==> renderer.resources->0.path_intermediate is Some
                &&& destroy_path_msaa <==> renderer.resources->0.path_msaa is Some
            }
        }),
{
}

/// A new transparency changes the alpha mode, to that of transparent windows or
/// to that of opaque ones, and nothing else.
pub proof fn law_transparency(renderer: WgpuRenderer, transparent: bool)
    ensures
        ({
            let r = renderer.with_transparency(transparent);
            &&& transparent ==> r.surface_config.alpha_mode == renderer.transparent_alpha_mode
            &&& !transparent ==> r.surface_config.alpha_mode == renderer.opaque_alpha_mode
            &&& r.surface_config.width == renderer.surface_config.width
            &&& r.surface_config.height == renderer.surface_config.height
            &&& r.surface_config.format == renderer.surface_config.format
            &&& r.surface_config.present_mode == renderer.surface_config.present_mode
            &&& r.surface_config.copy_source == renderer.surface_config.copy_source
            &&& r == (WgpuRenderer { surface_config: r.surface_config, ..renderer })
        }),
{
}

/// A new surface has the size that is asked for, at least one pixel, and the alpha
/// mode for its transparency. Without a surface nothing is drawn, and textures of
/// the old size are gone; what was configured stays. Destroying gives up all
/// textures, and nothing else.
pub proof fn law_surfaces_come_and_go(
    renderer: WgpuRenderer,
    config: WgpuSurfaceConfig,
    offered: Seq<PresentMode>,
    failed: bool,
)
    ensures
        ({
            let r = renderer.with_surface(config, offered);
            let (width, height) = (config.size.width.0, config.size.height.0);
            &&& width > 0 ==> r.surface_config.width == width
            &&& height > 0 ==> r.surface_config.height == height
            &&& width == 0 ==> r.surface_config.width == 1
            &&& height == 0 ==> r.surface_config.height == 1
            &&& config.transparent ==> r.surface_config.alpha_mode
                == renderer.transparent_alpha_mode
            &&& !config.transparent ==> r.surface_config.alpha_mode == renderer.opaque_alpha_mode
            &&& r.surface_config.format == renderer.surface_config.format
            &&& r.surface_config.copy_source == renderer.surface_config.copy_source
            &&& r.surface_configured
        }),
        ({
            let away = renderer.unconfigured();
            &&& away.frame_start(failed) is Skip
            &&& away.surface_config == renderer.surface_config
            &&& away.resources is Some <==> renderer.resources is Some
            &&& away.resources is Some ==> {
                &&& away.resources->0.path_intermediate is None
                &&& away.resources->0.path_msaa is None
                &&& away.resources->0.backdrop_scratch is None
            }
            &&& away == (WgpuRenderer {
                surface_configured: false,
                resources: away.resources,
                ..renderer
            })
        }),
        renderer.destroyed().resources is None,
        renderer.destroyed() == (WgpuRenderer { resources: None, ..renderer }),
{
}

/// A redraw is asked for once: asking again finds nothing, and nothing else
/// changes.
pub proof fn law_redraw_is_asked_once(renderer: WgpuRenderer)
    ensures
        !renderer.redraw_taken().needs_redraw,
        renderer.redraw_taken() == (WgpuRenderer {
            needs_redraw: false,
            ..renderer
        }),
{
}

/// A frame is drawn exactly if the surface gives a texture that suits it. A
/// surface that has changed is configured anew, and for that frame nothing is
/// drawn. An answer that is not valid counts as a failure of the next frame; no
/// answer takes an error back.
pub proof fn law_answers_of_surfaces(
    renderer: WgpuRenderer,
    status: SurfaceStatus,
    before: bool,
    blurs: bool,
)
    ensures
        WgpuRenderer::acquire_action(status) is Render <==> status is Success,
        WgpuRenderer::acquire_action(status) is Reconfigure <==> status is Suboptimal || status
            is Lost || status is Outdated,
        before ==> WgpuRenderer::error_noted(status, before),
        status is Validation ==> WgpuRenderer::error_noted(status, before),
        !before && !(status is Validation) ==> !WgpuRenderer::error_noted(status, before),
        ({
            let failed = WgpuRenderer::error_noted(status, before);
            let next = renderer.frame_started(failed, blurs);
            renderer.surface_configured && renderer.failed_frame_count < MAX_FAILED_FRAMES && status
                is Validation ==> next.failed_frame_count == renderer.failed_frame_count + 1
        }),
{
}

/// A frame that begins after one without errors starts counting them anew, and
/// asks for a texture. A frame with blurs starts counting those without anew, and
/// keeps the textures of blurs. Beginning a frame changes nothing else.
pub proof fn law_frames_begin(renderer: WgpuRenderer, failed: bool, blurs: bool)
    requires
        renderer.surface_configured,
        renderer.resources is Some,
        failed ==> renderer.failed_frame_count < 5,
    ensures
        ({
            let r = renderer.frame_started(failed, blurs);
            &&& renderer.frame_start(failed) is Acquire
            &&& !failed ==> r.failed_frame_count == 0
            &&& failed ==> r.failed_frame_count == renderer.failed_frame_count + 1
            &&& blurs ==> r.blur_free_frames == 0 && r.resources == renderer.resources
            &&& !blurs && renderer.blur_free_frames < u32::MAX ==> r.blur_free_frames
                == renderer.blur_free_frames + 1
            &&& !blurs && renderer.blur_free_frames < 29 ==> r.resources == renderer.resources
            &&& !blurs && renderer.blur_free_frames >= 29 ==> {
                &&& r.resources is Some && r.resources->0.backdrop_scratch is None
                &&& r.resources->0.path_intermediate == renderer.resources->0.path_intermediate
                &&& r.resources->0.path_msaa == renderer.resources->0.path_msaa
            }
            &&& r == (WgpuRenderer {
                failed_frame_count: r.failed_frame_count,
                blur_free_frames: r.blur_free_frames,
                resources: r.resources,
                ..renderer
            })
        }),
{
}

/// Textures for paths are there once they are asked for, with the size and the
/// format of the surface. Those that are there are kept, and nothing else changes.
pub proof fn law_path_textures_are_ensured(renderer: WgpuRenderer)
    requires
        renderer.resources is Some,
        renderer.surface_config.width > 0,
        renderer.surface_config.height > 0,
    ensures
        ({
            let r = renderer.with_path_textures();
            let t = renderer.resources->0;
            let made = r.resources->0;
            let c = renderer.surface_config;
            &&& r.resources is Some && made.path_intermediate is Some
            &&& made.backdrop_scratch == t.backdrop_scratch
            &&& t.path_intermediate is Some ==> r == renderer
            &&& t.path_intermediate is None ==> {
                &&& made.path_intermediate->0.width == c.width
                &&& made.path_intermediate->0.height == c.height
                &&& made.path_intermediate->0.format == c.format
                &&& made.path_msaa is Some <==> renderer.rendering_params.path_sample_count > 1
                &&& made.path_msaa is Some ==> {
                    &&& made.path_msaa->0.width == c.width && made.path_msaa->0.height == c.height
                    &&& made.path_msaa->0.sample_count
                        == renderer.rendering_params.path_sample_count
                }
                &&& renderer.path_textures() == (made.path_intermediate->0, made.path_msaa)
            }
            &&& r == (WgpuRenderer { resources: r.resources, ..renderer })
        }),
{
}

/// Shaders know the size of the frame, and whether its colors are multiplied by
/// their opacity, which paths on their own texture are not told. Text knows how
/// it is smoothed, and the order of the colors in a pixel.
pub proof fn law_frame_uniforms(renderer: WgpuRenderer, path: bool)
    requires
        renderer.surface_config.width <= 0x100_0000,
        renderer.surface_config.height <= 0x100_0000,
    ensures
        ({
            let w = renderer.globals_words(path);
            let premultiplied = renderer.surface_config.alpha_mode is PreMultiplied;
            &&& w.len() == 4
            &&& is_whole(Float32 { bits: w[0] }, renderer.surface_config.width as int)
            &&& is_whole(Float32 { bits: w[1] }, renderer.surface_config.height as int)
            &&& path || !premultiplied ==> w[2] == 0
            &&& !path && premultiplied ==> w[2] == 1
            &&& w[3] == 0
        }),
        ({
            let w = renderer.gamma_words();
            let params = renderer.rendering_params;
            &&& w.len() == 8
            &&& forall|i: int| 0 <= i < 4 ==> #[trigger] w[i] == params.gamma_ratios[i].bits
            &&& w[4] == params.grayscale_enhanced_contrast.bits
            &&& w[5] == params.subpixel_enhanced_contrast.bits
            &&& renderer.is_bgr ==> w[6] == 1
            &&& !renderer.is_bgr ==> w[6] == 0
            &&& w[7] == 0
        }),
{
    lemma_from_nat_value(renderer.surface_config.width as nat);
    lemma_from_nat_value(renderer.surface_config.height as nat);
}

/// What a frame is recorded with comes from the renderer. Quads are taken apart
/// only where a processor draws, and subpixel text has its pipeline only if both
/// the renderer and its device blend with two colors.
pub proof fn law_frame_parameters(renderer: WgpuRenderer)
    requires
        renderer.resources is Some,
    ensures
        ({
            let p = renderer.frame_params();
            &&& p.width == renderer.surface_config.width
            &&& p.height == renderer.surface_config.height
            &&& p.capacity == renderer.instance_buffer_capacity
            &&& p.alignment == renderer.storage_buffer_alignment
            &&& p.uniforms == renderer.uniforms
            &&& p.software <==> renderer.adapter_info.device_type is Cpu
            &&& p.path_intermediate <==> renderer.resources->0.path_intermediate is Some
            &&& p.path_msaa <==> renderer.resources->0.path_msaa is Some
            &&& p.subpixel_pipeline <==> renderer.dual_source_blending
                && renderer.device_dual_source_blending
            &&& p.backdrop_blur_supported == renderer.backdrop_blur_supported
        }),
{
}

/// A full instance buffer is replaced by one of twice the size, or of the largest
/// size that the device allows if that is less.
pub proof fn law_buffers_grow(capacity: u64, max_buffer_size: u64)
    ensures
        2 * capacity <= max_buffer_size ==> grown_capacity(capacity, max_buffer_size) == 2
            * capacity,
        2 * capacity > max_buffer_size ==> grown_capacity(capacity, max_buffer_size)
            == max_buffer_size,
{
}

/// The last attempt at a frame is recorded for the instance buffer that is there
/// in the end. It is submitted exactly if all of the frame fits.
pub proof fn law_last_attempt(
    params: FrameParams,
    max_buffer_size: u64,
    scratch: Option<BackdropScratch>,
    scene: Scene,
    batches: Seq<PrimitiveBatch>,
    kernels: Seq<Vec<Float32>>,
)
    requires
        params.valid(),
        params.capacity > 0,
        scratch is Some ==> scratch->0.valid(),
    ensures
        ({
            let d = attempts_made(params, max_buffer_size, scratch, scene, batches, kernels);
            exists|before: Option<BackdropScratch>|
                {
                    let (p, ok) = #[trigger] frame_drawn(
                        FrameParams { capacity: d.capacity, ..params },
                        before,
                        scene,
                        batches,
                        kernels,
                    );
                    &&& before is Some ==> before->0.valid()
                    &&& d.attempts.last().steps == p.steps
                    &&& d.attempts.last().end is Submit <==> ok
                    &&& d.attempts.last().end is GiveUp <==> !ok
                    &&& d.scratch == p.scratch
                }
        }),
    decreases max_buffer_size - params.capacity,
{
    reveal(attempt_made);
    law_drawing_ends(params, max_buffer_size, scratch, scene, batches, kernels);
    let d = attempts_made(params, max_buffer_size, scratch, scene, batches, kernels);
    let (attempt, after) = attempt_made(
        params,
        max_buffer_size,
        scratch,
        scene,
        batches,
        kernels,
    );
    let last = FrameParams { capacity: d.capacity, ..params };
    match attempt.end {
        AttemptEnd::Grow { capacity } => {
            let next = FrameParams { capacity, ..params };
            lemma_scratch_stays_valid(params, scratch, scene, batches, kernels);
            let rest = attempts_made(next, max_buffer_size, after, scene, batches, kernels);
            assert(d.attempts == seq![attempt] + rest.attempts);
            law_drawing_ends(next, max_buffer_size, after, scene, batches, kernels);
            law_last_attempt(next, max_buffer_size, after, scene, batches, kernels);
            assert(d.attempts.last() == rest.attempts.last());
            assert(FrameParams { capacity: rest.capacity, ..next } == last);
        },
        _ => {
            assert(last == params);
            let (p, ok) = frame_drawn(last, scratch, scene, batches, kernels);
            assert(d.attempts.last().steps == p.steps);
        },
    }
}

/// Every attempt but the last makes the instance buffer twice as large, or as
/// large as it can be.
pub proof fn law_attempts_double_the_buffer(
    params: FrameParams,
    max_buffer_size: u64,
    scratch: Option<BackdropScratch>,
    scene: Scene,
    batches: Seq<PrimitiveBatch>,
    kernels: Seq<Vec<Float32>>,
)
    requires
        params.capacity > 0,
    ensures
        ({
            let d = attempts_made(params, max_buffer_size, scratch, scene, batches, kernels);
            match d.attempts[0].end {
                AttemptEnd::Grow { capacity } => {
                    &&& params.capacity < capacity <= max_buffer_size
                    &&& capacity == 2 * params.capacity || (capacity == max_buffer_size
                        && max_buffer_size < 2 * params.capacity)
                    &&& exists|after: Option<BackdropScratch>|
                        d.attempts.skip(1) == (#[trigger] attempts_made(
                            FrameParams { capacity, ..params },
                            max_buffer_size,
                            after,
                            scene,
                            batches,
                            kernels,
                        )).attempts
                },
                AttemptEnd::Submit => d.attempts.len() == 1 && d.capacity == params.capacity,
                AttemptEnd::GiveUp => d.attempts.len() == 1 && d.capacity == params.capacity
                    && params.capacity >= max_buffer_size,
            }
        }),
{
    reveal(attempt_made);
    let d = attempts_made(params, max_buffer_size, scratch, scene, batches, kernels);
    let (attempt, after) = attempt_made(
        params,
        max_buffer_size,
        scratch,
        scene,
        batches,
        kernels,
    );
    if let AttemptEnd::Grow { capacity } = attempt.end {
        let next = FrameParams { capacity, ..params };
        let rest = attempts_made(next, max_buffer_size, after, scene, batches, kernels);
        assert(d.attempts.skip(1) =~= rest.attempts);
    }
}

/// A frame that is submitted shows, at every pixel, each primitive of its batches
/// once and in order, and paints the blurs that are due.
pub proof fn law_submitted_frames_show_everything(
    renderer: WgpuRenderer,
    scene: Scene,
    batches: Seq<PrimitiveBatch>,
    kernels: Seq<Vec<Float32>>,
    px: int,
    py: int,
)
    requires
        renderer.valid(),
        renderer.resources is Some,
        renderer.resources->0.path_intermediate is Some,
        0 <= px < renderer.surface_config.width,
        0 <= py < renderer.surface_config.height,
        forall|i: int| 0 <= i < batches.len() ==> batch_usable(scene, #[trigger] batches[i]),
    ensures
        ({
            let d = renderer.drawing(scene, batches, kernels);
            let effects = replay(d.attempts.last().steps).effects;
            d.attempts.last().end is Submit ==> {
                &&& shown_at(effects, px, py) == batches.map_values(
                    |b: PrimitiveBatch| batch_words(scene, b),
                ).flatten()
                &&& blurs_shown(effects) == blur_marks(
                    scene.backdrop_blurs@,
                    0,
                    if renderer.backdrop_blur_supported {
                        blurs_due(scene, batches, batches.len() as int)
                    } else {
                        0
                    },
                    renderer.surface_config.width,
                    renderer.surface_config.height,
                )
            }
        }),
{
    let params = renderer.frame_params();
    let scratch = renderer.resources->0.backdrop_scratch;
    let limit = renderer.max_buffer_size;
    law_last_attempt(params, limit, scratch, scene, batches, kernels);
    let d = renderer.drawing(scene, batches, kernels);
    let last = FrameParams { capacity: d.capacity, ..params };
    let before = choose|before: Option<BackdropScratch>|
        {
            let (p, ok) = #[trigger] frame_drawn(last, before, scene, batches, kernels);
            &&& before is Some ==> before->0.valid()
            &&& d.attempts.last().steps == p.steps
            &&& d.attempts.last().end is Submit <==> ok
            &&& d.attempts.last().end is GiveUp <==> !ok
            &&& d.scratch == p.scratch
        };
    law_frame_shows_everything(last, before, scene, batches, kernels, px, py);
}

/// A drawn frame leaves the instance buffer and the textures of blurs as the
/// attempts at it have left them, and changes nothing else.
pub proof fn law_drawing_keeps_the_rest(
    renderer: WgpuRenderer,
    scene: Scene,
    batches: Seq<PrimitiveBatch>,
    kernels: Seq<Vec<Float32>>,
)
    requires
        renderer.resources is Some,
    ensures
        ({
            let d = renderer.drawing(scene, batches, kernels);
            let r = renderer.after_drawing(d);
            let (before, after) = (renderer.resources->0, r.resources->0);
            &&& r.resources is Some
            &&& r.instance_buffer_capacity == d.capacity && after.backdrop_scratch == d.scratch
            &&& after.path_intermediate == before.path_intermediate
            &&& after.path_msaa == before.path_msaa
            &&& r == (WgpuRenderer {
                instance_buffer_capacity: r.instance_buffer_capacity,
                resources: r.resources,
                ..renderer
            })
        }),
{
}

/// A window that is not opaque asks for transparency when its renderer is made
/// anew, and an opaque one does not. Both get their alpha mode back if it is
/// still offered. A context is shared unless there is none or its device is lost
/// too.
pub proof fn law_recovery_keeps_transparency(
    renderer: WgpuRenderer,
    caps: SurfaceCapabilities,
    limits: DeviceLimits,
    dual_source_blending: bool,
    rendering_params: RenderingParameters,
    adapter_info: AdapterInfo,
    lost: Option<bool>,
)
    ensures
        ({
            let mode = renderer.surface_config.alpha_mode;
            let recovered = WgpuRenderer::created(
                renderer.same_config(),
                caps,
                limits,
                dual_source_blending,
                rendering_params,
                adapter_info,
            );
            &&& renderer.same_config().transparent <==> !(mode is Opaque)
            &&& renderer.same_config().preferred_present_mode == Some(
                renderer.surface_config.present_mode,
            )
            &&& (mode is Opaque || mode is PreMultiplied) && caps.alpha_modes@.contains(mode)
                ==> recovered.surface_config.alpha_mode == mode
        }),
        match lost {
            None => context_needed(lost),
            Some(lost_too) => context_needed(lost) == lost_too,
        },
{
    law_alpha_modes(caps.alpha_modes@);
}

/// A sixth failure in a row gives up all textures, asks for a redraw, and starts
/// counting anew.
pub proof fn law_sixth_failure_clears(renderer: WgpuRenderer, blurs: bool)
    requires
        renderer.surface_configured,
        renderer.failed_frame_count == 5,
        renderer.resources is Some,
    ensures
        renderer.frame_start(true) is ClearAtlas,
        ({
            let r = renderer.frame_started(true, blurs);
            &&& r.needs_redraw && r.failed_frame_count == 0
            &&& r.resources is Some && r.resources->0.backdrop_scratch is None
            &&& r.resources->0.path_intermediate is None && r.resources->0.path_msaa is None
            &&& r.surface_config == renderer.surface_config && r.surface_configured
            &&& r.blur_free_frames == renderer.blur_free_frames
        }),
{
}

/// The size of a window is the one that it was last given, as long as textures can
/// have it.
pub proof fn law_size_is_shown(renderer: WgpuRenderer, size: Size<DevicePixels>)
    requires
        0 < size.width.0 <= renderer.max_texture_size,
        0 < size.height.0 <= renderer.max_texture_size,
    ensures
        renderer.resized(size).shown_size().width.0 == size.width.0,
        renderer.resized(size).shown_size().height.0 == size.height.0,
{
}

/// What is reported of a GPU is what its adapter says of itself. It is software
/// exactly if quads are taken apart for it.
pub proof fn law_reports(renderer: WgpuRenderer)
    ensures
        renderer.reported().0 == renderer.frame_params().software,
        renderer.reported().1 == renderer.adapter_info.name@,
        renderer.reported().2 == renderer.adapter_info.driver@,
        renderer.reported().3 == renderer.adapter_info.driver_info@,
{
}

/// Text is told the order of the colors in a pixel that was set last, and nothing
/// else changes with it.
pub proof fn law_subpixel_layout(renderer: WgpuRenderer, is_bgr: bool)
    ensures
        renderer.with_subpixel_layout(is_bgr).gamma_words()[6] == (if is_bgr {
            1u32
        } else {
            0
        }),
        forall|i: int|
            0 <= i < 8 && i != 6 ==> renderer.with_subpixel_layout(is_bgr).gamma_words()[i]
                == #[trigger] renderer.gamma_words()[i],
        renderer.with_subpixel_layout(is_bgr) == (WgpuRenderer { is_bgr, ..renderer }),
{
}

/// Other pipelines are needed exactly if the alpha mode changes and there is
/// something to draw with; once they are there, the same transparency needs none.
/// The pipelines are one for each kind, with that for subpixel text just if both
/// the renderer and its device blend with two colors. They blend quads as the
/// alpha mode asks for, and take as many samples of paths as was found best.
pub proof fn law_renderer_pipelines(renderer: WgpuRenderer, transparent: bool, i: int)
    requires
        0 <= i < renderer.pipelines().len(),
    ensures
        renderer.needs_other_pipelines(transparent) <==> renderer.resources is Some
            && renderer.with_transparency(transparent).surface_config.alpha_mode
            != renderer.surface_config.alpha_mode,
        !renderer.with_transparency(transparent).needs_other_pipelines(transparent),
        ({
            let all = renderer.pipelines();
            let d = all[i];
            let count = renderer.rendering_params.path_sample_count;
            let subpixel = renderer.dual_source_blending && renderer.device_dual_source_blending;
            &&& all.len() == if subpixel {
                13nat
            } else {
                12nat
            }
            &&& forall|j: int| 0 <= j < all.len() && j != i ==> (#[trigger] all[j]).kind != d.kind
            &&& d.kind is SubpixelSprites ==> subpixel
            &&& d.sample_count == if d.kind is PathRasterization {
                count
            } else {
                1
            }
            &&& d.kind is Quads ==> (d.blend == Some(Blend::PremultipliedAlpha)
                <==> renderer.surface_config.alpha_mode is PreMultiplied)
            &&& d.kind is Quads ==> d.blend is Some
        }),
{
    let subpixel = renderer.dual_source_blending && renderer.device_dual_source_blending;
    let kinds = crate::pipelines::pipeline_kinds(subpixel);
    let all = renderer.pipelines();
    crate::pipelines::law_pipelines_are_complete(subpixel, kinds[i]);
    let count = renderer.rendering_params.path_sample_count;
    let blend = crate::pipelines::surface_blend(renderer.surface_config.alpha_mode);
    crate::pipelines::law_pipeline_state(kinds[i], blend, count);
    assert(kinds.contains(kinds[i]));
    assert forall|j: int| 0 <= j < all.len() && j != i implies (#[trigger] all[j]).kind
        != all[i].kind by {
        crate::pipelines::law_pipeline_state(kinds[j], blend, count);
    }
}

/// The uniforms of a frame are written to places of their own: those of the frame
/// first, then those of paths, which are not told of opacity, then those of text.
pub proof fn law_uniforms_are_written_apart(renderer: WgpuRenderer, alignment: int)
    requires
        0 < alignment <= u32::MAX,
        renderer.uniforms == crate::uniforms::UniformLayout::aligned(alignment),
    ensures
        ({
            let w = renderer.uniform_writes();
            &&& w.len() == 3
            &&& w[0].0 == 0 && 4 * w[0].1.len() <= w[1].0
            &&& w[1].0 + 4 * w[1].1.len() <= w[2].0
            &&& w[2].0 + 4 * w[2].1.len() == renderer.uniforms.globals_buffer_size
            &&& w[1].0 % alignment == 0 && w[2].0 % alignment == 0
            &&& w[0].1.len() == 4 && w[1].1.len() == 4 && w[2].1.len() == 8
            &&& w[0].1[0] == w[1].1[0] && w[0].1[1] == w[1].1[1]
            &&& w[0].1[2] == (if renderer.surface_config.alpha_mode is PreMultiplied {
                1u32
            } else {
                0
            })
            &&& w[1].1[2] == 0
            &&& w[2].1[4] == renderer.rendering_params.grayscale_enhanced_contrast.bits
        }),
{
    crate::uniforms::law_uniforms_have_places(alignment);
}

/// There is a renderer for a surface exactly if it offers a format and an alpha
/// mode; a missing format is reported first.
pub proof fn law_surfaces_need_a_format(caps: SurfaceCapabilities)
    ensures
        WgpuRenderer::creation_error(caps) is None <==> caps.formats@.len() > 0
            && caps.alpha_modes@.len() > 0,
        WgpuRenderer::creation_error(caps) == Some(SurfaceError::NoTextureFormats)
            <==> caps.formats@.len() == 0,
{
}

/// An error counts for one frame only: a frame that begins takes it, and one that
/// does not leaves it for later.
pub proof fn law_errors_count_once(renderer: WgpuRenderer, failed: bool)
    ensures
        !(renderer.frame_start(failed) is Skip) ==> !renderer.error_kept(failed),
        renderer.frame_start(failed) is Skip ==> renderer.error_kept(failed) == failed,
{
}

/// An attempt says what its commands say, in order, and ends as it says.
pub proof fn law_attempts_are_commands(attempt: Attempt, i: int)
    ensures
        attempt@.steps.len() == attempt.commands@.len(),
        0 <= i < attempt.commands@.len() ==> attempt@.steps[i] == attempt.commands@[i]@,
        attempt@.end == attempt.end,
{
}

} // verus!
