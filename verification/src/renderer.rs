//! The state of a renderer, and what it asks of the GPU.
use crate::backdrop::BackdropScratch;
use crate::commands::{steps_of, Command, FrameParams, Recorder, Step};
use crate::float::{Float32, Value};
use crate::frame_laws::lemma_scratch_stays_valid;
use crate::frame::{batches_match, frame_drawn, kernels_match};
use crate::geometry::{DevicePixels, Size};
use crate::pipelines::{
    create_msaa_if_needed, create_path_intermediate, create_pipelines, described,
    path_intermediate, path_msaa, pipeline_kinds, surface_blend, PipelineDescriptor, PipelineKind,
    TextureDescriptor,
};
use crate::scene::{PrimitiveBatch, Scene};
use crate::surface::{
    choose_format, choose_present_mode, chosen_present_mode, clamp_length, clamped_length, exceeds,
    opaque_mode, pick_alpha_mode, preferred_format, transparent_mode, AdapterInfo,
    CompositeAlphaMode, DeviceType, GpuSpecs, PresentMode, RenderingParameters,
    SurfaceCapabilities, SurfaceConfiguration, SurfaceError, WgpuSurfaceConfig,
};
use crate::uniforms::{GammaParams, GlobalParams, UniformLayout};
use vstd::prelude::*;

verus! {

/// After this many consecutive frames without a backdrop blur, its textures are
/// released; they are created again when needed.
pub const SCRATCH_RELEASE_AFTER_FRAMES: u32 = 30;

/// Size in bytes that the instance buffer starts with.
pub const INITIAL_INSTANCE_CAPACITY: u64 = 2_097_152;

/// After more failures than this, what was made for the window is made anew.
pub const MAX_FAILED_FRAMES: u32 = 5;

/// What a device allows.
#[derive(Clone, Copy, Debug, PartialEq, Eq, Structural)]
pub struct DeviceLimits {
    pub max_texture_dimension_2d: u32,
    pub min_uniform_buffer_offset_alignment: u32,
    pub min_storage_buffer_offset_alignment: u32,
    pub max_buffer_size: u64,
    /// Whether shaders can blend with two colors.
    pub dual_source_blending: bool,
}

/// The textures that exist besides those of the surface.
#[derive(Clone, Copy, Debug)]
pub struct Resources {
    pub path_intermediate: Option<TextureDescriptor>,
    pub path_msaa: Option<TextureDescriptor>,
    pub backdrop_scratch: Option<BackdropScratch>,
}

impl Resources {
    /// No textures.
    pub open spec fn none() -> Resources {
        Resources { path_intermediate: None, path_msaa: None, backdrop_scratch: None }
    }

    /// Forgets all textures; they are created again when they are needed.
    pub fn invalidate_intermediate_textures(&mut self)
        ensures
            *final(self) == Resources::none(),
    {
        self.path_intermediate = None;
        self.path_msaa = None;
        self.backdrop_scratch = None;
    }
}

/// The state of a renderer for one window.
#[derive(Debug)]
pub struct WgpuRenderer {
    /// `None` after the renderer was destroyed, or while a lost device is
    /// replaced.
    pub resources: Option<Resources>,
    pub surface_config: SurfaceConfiguration,
    pub uniforms: UniformLayout,
    pub instance_buffer_capacity: u64,
    pub max_buffer_size: u64,
    pub storage_buffer_alignment: u64,
    pub rendering_params: RenderingParameters,
    pub is_bgr: bool,
    pub dual_source_blending: bool,
    pub device_dual_source_blending: bool,
    pub adapter_info: AdapterInfo,
    pub transparent_alpha_mode: CompositeAlphaMode,
    pub opaque_alpha_mode: CompositeAlphaMode,
    pub max_texture_size: u32,
    pub failed_frame_count: u32,
    pub surface_configured: bool,
    pub needs_redraw: bool,
    /// Frames since the last scene with a backdrop blur.
    pub blur_free_frames: u32,
    /// Whether the surface can be copied from, which backdrop blurs need.
    pub backdrop_blur_supported: bool,
}

/// A length in device pixels as surfaces count it.
pub open spec fn device_length(length: DevicePixels) -> u32 {
    length.0 as u32
}

/// What a surface is configured with for a window that asks for this.
pub open spec fn initial_config(
    config: WgpuSurfaceConfig,
    caps: SurfaceCapabilities,
    limit: u32,
) -> SurfaceConfiguration {
    SurfaceConfiguration {
        copy_source: caps.copy_source,
        format: preferred_format(caps.formats@)->0,
        width: clamped_length(device_length(config.size.width), limit),
        height: clamped_length(device_length(config.size.height), limit),
        present_mode: chosen_present_mode(config.preferred_present_mode, caps.present_modes@),
        desired_maximum_frame_latency: 2,
        alpha_mode: if config.transparent {
            transparent_mode(caps.alpha_modes@)->0
        } else {
            opaque_mode(caps.alpha_modes@)->0
        },
    }
}

impl WgpuRenderer {
    /// What every operation keeps. In particular the renderer gives up on a
    /// frame long before it would have to give up altogether.
    pub open spec fn valid(self) -> bool {
        &&& self.storage_buffer_alignment > 0
        &&& crate::uniforms::BLUR_PASS_SIZE <= self.uniforms.backdrop_slot_stride
        &&& self.uniforms.backdrop_slot_stride * crate::uniforms::BACKDROP_MAX_BLURS * 3 <= u64::MAX
        &&& self.instance_buffer_capacity > 0
        &&& self.failed_frame_count <= MAX_FAILED_FRAMES
        &&& self.surface_config.width > 0
        &&& self.surface_config.height > 0
        &&& self.backdrop_blur_supported == self.surface_config.copy_source
        &&& self.resources is Some && self.resources->0.backdrop_scratch is Some
            ==> self.resources->0.backdrop_scratch->0.valid()
    }

    /// A renderer for a window that asks for `config`, with what the adapter and
    /// its device offer.
    pub open spec fn created(
        config: WgpuSurfaceConfig,
        caps: SurfaceCapabilities,
        limits: DeviceLimits,
        dual_source_blending: bool,
        rendering_params: RenderingParameters,
        adapter_info: AdapterInfo,
    ) -> WgpuRenderer {
        WgpuRenderer {
            resources: Some(Resources::none()),
            surface_config: initial_config(config, caps, limits.max_texture_dimension_2d),
            uniforms: UniformLayout::aligned(limits.min_uniform_buffer_offset_alignment as int),
            instance_buffer_capacity: INITIAL_INSTANCE_CAPACITY,
            max_buffer_size: limits.max_buffer_size,
            storage_buffer_alignment: limits.min_storage_buffer_offset_alignment as u64,
            rendering_params,
            is_bgr: false,
            dual_source_blending,
            device_dual_source_blending: limits.dual_source_blending,
            adapter_info,
            transparent_alpha_mode: transparent_mode(caps.alpha_modes@)->0,
            opaque_alpha_mode: opaque_mode(caps.alpha_modes@)->0,
            max_texture_size: limits.max_texture_dimension_2d,
            failed_frame_count: 0,
            surface_configured: true,
            needs_redraw: false,
            blur_free_frames: 0,
            backdrop_blur_supported: caps.copy_source,
        }
    }

    /// Why there can be no renderer for a surface.
    pub open spec fn creation_error(caps: SurfaceCapabilities) -> Option<SurfaceError> {
        if caps.formats@.len() == 0 {
            Some(SurfaceError::NoTextureFormats)
        } else if caps.alpha_modes@.len() == 0 {
            Some(SurfaceError::NoAlphaModes)
        } else {
            None
        }
    }

    /// A renderer for a window that asks for `config`, with what the adapter and
    /// its device offer. Its textures are left to the first frame, when the
    /// surface is known to be healthy.
    pub fn new(
        config: WgpuSurfaceConfig,
        caps: &SurfaceCapabilities,
        limits: DeviceLimits,
        dual_source_blending: bool,
        rendering_params: RenderingParameters,
        adapter_info: AdapterInfo,
    ) -> (r: Result<WgpuRenderer, SurfaceError>)
        requires
            limits.min_uniform_buffer_offset_alignment > 0,
            limits.min_storage_buffer_offset_alignment > 0,
        ensures
            r matches Err(error) ==> WgpuRenderer::creation_error(*caps) == Some(error),
            r is Ok ==> WgpuRenderer::creation_error(*caps) is None,
            r == if caps.formats@.len() == 0 {
                Err(SurfaceError::NoTextureFormats)
            } else if caps.alpha_modes@.len() == 0 {
                Err(SurfaceError::NoAlphaModes)
            } else {
                Ok(
                    WgpuRenderer::created(
                        config,
                        *caps,
                        limits,
                        dual_source_blending,
                        rendering_params,
                        adapter_info,
                    ),
                )
            },
            r is Ok ==> r->Ok_0.valid(),
            r is Ok ==> r->Ok_0.uniforms.valid(limits.min_uniform_buffer_offset_alignment as int),
    {
        proof {
            crate::surface::law_format_is_offered(caps.formats@);
        }
        let format = match choose_format(&caps.formats) {
            Ok(format) => format,
            Err(error) => {
                return Err(error);
            },
        };
        let transparent_alpha_mode = match pick_alpha_mode(
            &caps.alpha_modes,
            CompositeAlphaMode::PreMultiplied,
            CompositeAlphaMode::Inherit,
        ) {
            Ok(mode) => mode,
            Err(error) => {
                return Err(error);
            },
        };
        let opaque_alpha_mode = match pick_alpha_mode(
            &caps.alpha_modes,
            CompositeAlphaMode::Opaque,
            CompositeAlphaMode::Inherit,
        ) {
            Ok(mode) => mode,
            Err(error) => {
                return Err(error);
            },
        };
        let limit: u32 = limits.max_texture_dimension_2d;
        let surface_config = SurfaceConfiguration {
            copy_source: caps.copy_source,
            format,
            width: clamp_length(config.size.width.0 as u32, limit),
            height: clamp_length(config.size.height.0 as u32, limit),
            present_mode: choose_present_mode(config.preferred_present_mode, &caps.present_modes),
            desired_maximum_frame_latency: 2,
            alpha_mode: if config.transparent {
                transparent_alpha_mode
            } else {
                opaque_alpha_mode
            },
        };
        Ok(
            WgpuRenderer {
                resources: Some(
                    Resources { path_intermediate: None, path_msaa: None, backdrop_scratch: None },
                ),
                surface_config,
                uniforms: UniformLayout::new(limits.min_uniform_buffer_offset_alignment),
                instance_buffer_capacity: INITIAL_INSTANCE_CAPACITY,
                max_buffer_size: limits.max_buffer_size,
                storage_buffer_alignment: limits.min_storage_buffer_offset_alignment as u64,
                rendering_params,
                is_bgr: false,
                dual_source_blending,
                device_dual_source_blending: limits.dual_source_blending,
                adapter_info,
                transparent_alpha_mode,
                opaque_alpha_mode,
                max_texture_size: limit,
                failed_frame_count: 0,
                surface_configured: true,
                needs_redraw: false,
                blur_free_frames: 0,
                backdrop_blur_supported: caps.copy_source,
            },
        )
    }
}


/// Whether a requested size is larger than the largest texture, so that content
/// may not fill the window.
pub fn exceeds_limit(size: Size<DevicePixels>, limit: u32) -> (r: bool)
    ensures
        r == exceeds(device_length(size.width), device_length(size.height), limit),
{
    size.width.0 as u32 > limit || size.height.0 as u32 > limit
}

/// What a change of size asks for.
#[derive(Clone, Copy, Debug, PartialEq, Eq, Structural)]
pub enum ResizeAction {
    /// Leave everything as it is.
    Keep,
    /// Wait for the GPU, destroy the textures of paths that exist, and configure
    /// the surface anew.
    Reconfigure { destroy_path_intermediate: bool, destroy_path_msaa: bool },
}

impl WgpuRenderer {
    pub open spec fn has_size(self, size: Size<DevicePixels>) -> bool {
        device_length(size.width) == self.surface_config.width && device_length(size.height)
            == self.surface_config.height
    }

    /// The renderer with this size, brought into its limits, and without
    /// textures of the size before.
    pub open spec fn resized(self, size: Size<DevicePixels>) -> WgpuRenderer {
        if self.has_size(size) {
            self
        } else {
            WgpuRenderer {
                surface_config: SurfaceConfiguration {
                    width: clamped_length(device_length(size.width), self.max_texture_size),
                    height: clamped_length(device_length(size.height), self.max_texture_size),
                    ..self.surface_config
                },
                resources: match self.resources {
                    Some(_) => Some(Resources::none()),
                    None => None,
                },
                ..self
            }
        }
    }

    /// What a new size asks for.
    pub open spec fn resize_action(self, size: Size<DevicePixels>) -> ResizeAction {
        if self.resources is None || self.has_size(size) {
            ResizeAction::Keep
        } else {
            ResizeAction::Reconfigure {
                destroy_path_intermediate: self.resources->0.path_intermediate is Some,
                destroy_path_msaa: self.resources->0.path_msaa is Some,
            }
        }
    }

    /// Takes note of a new size of the window.
    pub fn update_drawable_size(&mut self, size: Size<DevicePixels>) -> (r: ResizeAction)
        requires
            old(self).valid(),
        ensures
            final(self).valid(),
            r == old(self).resize_action(size),
            *final(self) == old(self).resized(size),
            r == match old(self).resources {
                Some(resources) => if old(self).has_size(size) {
                    ResizeAction::Keep
                } else {
                    ResizeAction::Reconfigure {
                        destroy_path_intermediate: resources.path_intermediate is Some,
                        destroy_path_msaa: resources.path_msaa is Some,
                    }
                },
                None => ResizeAction::Keep,
            },
    {
        let width: u32 = size.width.0 as u32;
        let height: u32 = size.height.0 as u32;
        if width == self.surface_config.width && height == self.surface_config.height {
            return ResizeAction::Keep;
        }
        self.surface_config.width = clamp_length(width, self.max_texture_size);
        self.surface_config.height = clamp_length(height, self.max_texture_size);
        match self.resources {
            None => ResizeAction::Keep,
            Some(resources) => {
                let mut resources = resources;
                let action = ResizeAction::Reconfigure {
                    destroy_path_intermediate: resources.path_intermediate.is_some(),
                    destroy_path_msaa: resources.path_msaa.is_some(),
                };
                resources.invalidate_intermediate_textures();
                self.resources = Some(resources);
                action
            },
        }
    }

    /// The renderer for this order of the colors in a pixel.
    pub open spec fn with_subpixel_layout(self, is_bgr: bool) -> WgpuRenderer {
        WgpuRenderer { is_bgr, ..self }
    }

    /// Sets the order of the colors in a pixel.
    pub fn set_subpixel_layout(&mut self, is_bgr: bool)
        requires
            old(self).valid(),
        ensures
            final(self).valid(),
            *final(self) == old(self).with_subpixel_layout(is_bgr),
            *final(self) == (WgpuRenderer { is_bgr, ..*old(self) }),
    {
        self.is_bgr = is_bgr;
    }

    pub open spec fn alpha_mode_for(self, transparent: bool) -> CompositeAlphaMode {
        if transparent {
            self.transparent_alpha_mode
        } else {
            self.opaque_alpha_mode
        }
    }

    /// The renderer for a window of this transparency.
    pub open spec fn with_transparency(self, transparent: bool) -> WgpuRenderer {
        WgpuRenderer {
            surface_config: SurfaceConfiguration {
                alpha_mode: self.alpha_mode_for(transparent),
                ..self.surface_config
            },
            ..self
        }
    }

    /// The pipelines that the present alpha mode asks for. After
    /// [`WgpuRenderer::replace_surface`] with another transparency those in use
    /// are still the ones from before.
    pub open spec fn pipelines(self) -> Seq<PipelineDescriptor> {
        pipeline_kinds(self.dual_source_blending && self.device_dual_source_blending).map(
            |i: int, kind: PipelineKind|
                described(
                    kind,
                    surface_blend(self.surface_config.alpha_mode),
                    self.rendering_params.path_sample_count,
                ),
        )
    }

    /// The pipelines that the present alpha mode asks for.
    pub fn current_pipelines(&self) -> (r: Vec<PipelineDescriptor>)
        ensures
            r@ == self.pipelines(),
    {
        let r = create_pipelines(
            self.surface_config.alpha_mode,
            self.rendering_params.path_sample_count,
            self.dual_source_blending,
            self.device_dual_source_blending,
        );
        assert(r@ =~= self.pipelines());
        r
    }

    /// Whether a transparency asks for other pipelines.
    pub open spec fn needs_other_pipelines(self, transparent: bool) -> bool {
        self.resources is Some && self.alpha_mode_for(transparent)
            != self.surface_config.alpha_mode
    }

    /// Takes note of a new transparency of the window. If that changes how the
    /// surface is blended, gives the pipelines to create once the surface is
    /// configured anew.
    pub fn update_transparency(&mut self, transparent: bool) -> (r: Option<Vec<PipelineDescriptor>>)
        requires
            old(self).valid(),
        ensures
            final(self).valid(),
            *final(self) == old(self).with_transparency(transparent),
            r is Some == old(self).needs_other_pipelines(transparent),
            r is Some <==> old(self).resources is Some && old(self).alpha_mode_for(transparent)
                != old(self).surface_config.alpha_mode,
            r is Some ==> r->0@ == final(self).pipelines(),
    {
        let mode = if transparent {
            self.transparent_alpha_mode
        } else {
            self.opaque_alpha_mode
        };
        if mode == self.surface_config.alpha_mode {
            return None;
        }
        self.surface_config.alpha_mode = mode;
        if self.resources.is_none() {
            return None;
        }
        Some(self.current_pipelines())
    }

    /// The size of the surface.
    pub open spec fn shown_size(self) -> Size<DevicePixels> {
        Size {
            width: DevicePixels(self.surface_config.width as i32),
            height: DevicePixels(self.surface_config.height as i32),
        }
    }

    /// The size of the surface.
    pub fn viewport_size(&self) -> (r: Size<DevicePixels>)
        ensures
            r == self.shown_size(),
            r.width.0 == self.surface_config.width as i32,
            r.height.0 == self.surface_config.height as i32,
    {
        Size {
            width: DevicePixels(self.surface_config.width as i32),
            height: DevicePixels(self.surface_config.height as i32),
        }
    }

    /// Whether subpixel text can be blended.
    pub fn supports_dual_source_blending(&self) -> (r: bool)
        ensures
            r == self.dual_source_blending,
    {
        self.dual_source_blending
    }

    /// What is known of the GPU: whether it is software, and the names of the
    /// device, of its driver and of the version of that.
    pub open spec fn reported(self) -> (bool, Seq<char>, Seq<char>, Seq<char>) {
        (
            self.adapter_info.device_type is Cpu,
            self.adapter_info.name@,
            self.adapter_info.driver@,
            self.adapter_info.driver_info@,
        )
    }

    /// What is known of the GPU.
    pub fn gpu_specs(&self) -> (r: GpuSpecs)
        ensures
            (r.is_software_emulated, r.device_name@, r.driver_name@, r.driver_info@)
                == self.reported(),
            r.is_software_emulated == (self.adapter_info.device_type is Cpu),
            r.device_name@ == self.adapter_info.name@,
            r.driver_name@ == self.adapter_info.driver@,
            r.driver_info@ == self.adapter_info.driver_info@,
    {
        GpuSpecs {
            is_software_emulated: self.adapter_info.device_type == DeviceType::Cpu,
            device_name: self.adapter_info.name.clone(),
            driver_name: self.adapter_info.driver.clone(),
            driver_info: self.adapter_info.driver_info.clone(),
        }
    }

    /// The length of the largest texture.
    pub fn max_texture_size(&self) -> (r: u32)
        ensures
            r == self.max_texture_size,
    {
        self.max_texture_size
    }

    /// The renderer without any textures of its own.
    pub open spec fn invalidated(self) -> WgpuRenderer {
        WgpuRenderer {
            resources: match self.resources {
                Some(_) => Some(Resources::none()),
                None => None,
            },
            ..self
        }
    }

    fn invalidate(&mut self)
        ensures
            *final(self) == old(self).invalidated(),
    {
        if let Some(resources) = self.resources {
            let mut resources = resources;
            resources.invalidate_intermediate_textures();
            self.resources = Some(resources);
        }
    }

    /// The renderer without a surface.
    pub open spec fn unconfigured(self) -> WgpuRenderer {
        WgpuRenderer { surface_configured: false, ..self.invalidated() }
    }

    /// Marks the surface as unconfigured, so that rendering is skipped until a
    /// new surface is provided by [`WgpuRenderer::replace_surface`].
    ///
    /// Use this when the native window is destroyed but the surface is to be
    /// created again later.
    pub fn unconfigure_surface(&mut self)
        requires
            old(self).valid(),
        ensures
            final(self).valid(),
            *final(self) == old(self).unconfigured(),
            *final(self) == (WgpuRenderer {
                surface_configured: false,
                ..old(self).invalidated()
            }),
    {
        self.surface_configured = false;
        // The textures have the size of the old surface.
        self.invalidate();
    }

    /// The renderer on a new surface that offers these presentation modes.
    pub open spec fn with_surface(
        self,
        config: WgpuSurfaceConfig,
        offered: Seq<PresentMode>,
    ) -> WgpuRenderer {
        WgpuRenderer {
            surface_config: SurfaceConfiguration {
                width: crate::pipelines::at_least_one(device_length(config.size.width)),
                height: crate::pipelines::at_least_one(device_length(config.size.height)),
                alpha_mode: self.alpha_mode_for(config.transparent),
                present_mode: chosen_present_mode(config.preferred_present_mode, offered),
                ..self.surface_config
            },
            surface_configured: true,
            ..self.invalidated()
        }
    }

    /// Takes a new surface into use, after the native window was destroyed and
    /// created again. `offered` are the presentation modes of the new surface,
    /// which is configured with what is given back. The pipelines are kept.
    pub fn replace_surface(
        &mut self,
        config: WgpuSurfaceConfig,
        offered: &Vec<PresentMode>,
    ) -> (r: SurfaceConfiguration)
        requires
            old(self).valid(),
            old(self).resources is Some,
        ensures
            final(self).valid(),
            *final(self) == old(self).with_surface(config, offered@),
            r == final(self).surface_config,
    {
        let width: u32 = config.size.width.0 as u32;
        let height: u32 = config.size.height.0 as u32;
        self.surface_config.width = if width == 0 { 1 } else { width };
        self.surface_config.height = if height == 0 { 1 } else { height };
        self.surface_config.alpha_mode = if config.transparent {
            self.transparent_alpha_mode
        } else {
            self.opaque_alpha_mode
        };
        self.surface_config.present_mode = choose_present_mode(
            config.preferred_present_mode,
            offered,
        );
        self.invalidate();
        self.surface_configured = true;
        self.surface_config
    }

    /// The renderer without anything that is bound to the surface.
    pub open spec fn destroyed(self) -> WgpuRenderer {
        WgpuRenderer { resources: None, ..self }
    }

    /// Gives up everything that is bound to the surface, so that the native
    /// window can be destroyed before the renderer is.
    pub fn destroy(&mut self)
        requires
            old(self).valid(),
        ensures
            final(self).valid(),
            *final(self) == old(self).destroyed(),
            *final(self) == (WgpuRenderer { resources: None, ..*old(self) }),
    {
        self.resources = None;
    }

    /// The renderer after it was asked whether a redraw is needed.
    pub open spec fn redraw_taken(self) -> WgpuRenderer {
        WgpuRenderer { needs_redraw: false, ..self }
    }

    /// Whether a redraw is needed because the state of the GPU was cleared.
    /// Calling this method clears the flag.
    pub fn needs_redraw(&mut self) -> (r: bool)
        requires
            old(self).valid(),
        ensures
            final(self).valid(),
            r == old(self).needs_redraw,
            *final(self) == old(self).redraw_taken(),
            *final(self) == (WgpuRenderer { needs_redraw: false, ..*old(self) }),
    {
        let r = self.needs_redraw;
        self.needs_redraw = false;
        r
    }
}

/// A size within the limits is reached in one step: asking for it again changes
/// nothing, and nothing has to be configured.
pub proof fn law_resize_settles(renderer: WgpuRenderer, size: Size<DevicePixels>)
    requires
        0 < device_length(size.width) <= renderer.max_texture_size,
        0 < device_length(size.height) <= renderer.max_texture_size,
    ensures
        renderer.resized(size).has_size(size),
        renderer.resized(size).resized(size) == renderer.resized(size),
{
}

/// Whatever size is asked for, a changed surface has at least one pixel in each
/// direction, and not more than a texture can have.
pub proof fn law_size_within_limits(renderer: WgpuRenderer, size: Size<DevicePixels>)
    requires
        renderer.max_texture_size > 0,
        !renderer.has_size(size),
    ensures
        1 <= renderer.resized(size).surface_config.width <= renderer.max_texture_size,
        1 <= renderer.resized(size).surface_config.height <= renderer.max_texture_size,
{
}

/// Asking for the same transparency again changes nothing.
pub proof fn law_transparency_settles(renderer: WgpuRenderer, transparent: bool)
    ensures
        renderer.with_transparency(transparent).with_transparency(transparent)
            == renderer.with_transparency(transparent),
        renderer.with_transparency(transparent).alpha_mode_for(transparent)
            == renderer.with_transparency(transparent).surface_config.alpha_mode,
{
}

/// A window that was taken away and given back draws again, with textures yet to
/// be created; what does not depend on the surface is kept. A preferred
/// presentation mode is used if the new surface offers it, and `Fifo` otherwise.
pub proof fn law_surface_comes_back(
    renderer: WgpuRenderer,
    config: WgpuSurfaceConfig,
    offered: Seq<PresentMode>,
)
    requires
        renderer.resources is Some,
    ensures
        ({
            let away = WgpuRenderer { surface_configured: false, ..renderer.invalidated() };
            let back = away.with_surface(config, offered);
            &&& back == renderer.with_surface(config, offered)
            &&& back.surface_configured
            &&& back.resources == Some(Resources::none())
            &&& back.uniforms == renderer.uniforms
            &&& back.instance_buffer_capacity == renderer.instance_buffer_capacity
            &&& back.surface_config.format == renderer.surface_config.format
            &&& back.surface_config.present_mode == match config.preferred_present_mode {
                Some(mode) if offered.contains(mode) => mode,
                _ => PresentMode::Fifo,
            }
        }),
{
}


/// How a frame begins.
#[derive(Clone, Copy, Debug, PartialEq, Eq, Structural)]
pub enum FrameStart {
    /// There is no surface to draw to. Asking one for a texture can block on
    /// some drivers.
    Skip,
    /// Too many frames have failed: clear the atlas and draw nothing.
    ClearAtlas,
    /// Prepare the atlas and ask the surface for a texture.
    Acquire,
}

/// What a surface answers when it is asked for a texture.
#[derive(Clone, Copy, Debug, PartialEq, Eq, Structural)]
pub enum SurfaceStatus {
    Success,
    Suboptimal,
    Lost,
    Outdated,
    Timeout,
    Occluded,
    Validation,
}

/// What to do with the answer of a surface.
#[derive(Clone, Copy, Debug, PartialEq, Eq, Structural)]
pub enum AcquireAction {
    /// Draw to the texture.
    Render,
    /// Give the texture back, if there is one, and configure the surface anew;
    /// draw nothing.
    Reconfigure,
    /// Draw nothing.
    Skip,
}

impl WgpuRenderer {
    /// How a frame begins, if the last one has failed or not.
    pub open spec fn frame_start(self, failed: bool) -> FrameStart {
        if !self.surface_configured {
            FrameStart::Skip
        } else if failed && self.failed_frame_count >= MAX_FAILED_FRAMES {
            FrameStart::ClearAtlas
        } else {
            FrameStart::Acquire
        }
    }

    /// The renderer when a frame begins.
    pub open spec fn frame_started(self, failed: bool, blurs: bool) -> WgpuRenderer {
        match self.frame_start(failed) {
            FrameStart::Skip => self,
            FrameStart::ClearAtlas => WgpuRenderer {
                needs_redraw: true,
                failed_frame_count: 0,
                ..self.invalidated()
            },
            FrameStart::Acquire => {
                let blur_free_frames = if blurs {
                    0
                } else if self.blur_free_frames == u32::MAX {
                    u32::MAX
                } else {
                    (self.blur_free_frames + 1) as u32
                };
                WgpuRenderer {
                    failed_frame_count: if failed {
                        (self.failed_frame_count + 1) as u32
                    } else {
                        0
                    },
                    blur_free_frames,
                    resources: if blur_free_frames >= SCRATCH_RELEASE_AFTER_FRAMES {
                        Some(Resources { backdrop_scratch: None, ..self.resources->0 })
                    } else {
                        self.resources
                    },
                    ..self
                }
            },
        }
    }

    /// Whether an error is still there after a frame has begun.
    pub open spec fn error_kept(self, before: bool) -> bool {
        before && !self.surface_configured
    }

    /// Begins a frame. An error that the GPU has reported since the last one is
    /// taken, and counted: after six in a row everything that was made for the
    /// window is given up.
    ///
    /// The textures of blurs are only worth holding while blurs keep appearing;
    /// after a quiet run they are dropped.
    pub fn begin_frame(&mut self, last_error: &mut Option<String>, scene: &Scene) -> (r: FrameStart)
        requires
            old(self).valid(),
            old(self).frame_start(*old(last_error) is Some) is Acquire ==> old(self).resources
                is Some,
        ensures
            final(self).valid(),
            r == old(self).frame_start(*old(last_error) is Some),
            *final(self) == old(self).frame_started(
                *old(last_error) is Some,
                scene.backdrop_blurs@.len() > 0,
            ),
            *final(last_error) is Some == old(self).error_kept(*old(last_error) is Some),
            *final(last_error) == if old(self).surface_configured {
                None
            } else {
                *old(last_error)
            },
    {
        if !self.surface_configured {
            return FrameStart::Skip;
        }
        let failed = last_error.is_some();
        *last_error = None;
        if failed {
            if self.failed_frame_count >= MAX_FAILED_FRAMES {
                self.invalidate();
                self.needs_redraw = true;
                self.failed_frame_count = 0;
                return FrameStart::ClearAtlas;
            }
            self.failed_frame_count = self.failed_frame_count + 1;
        } else {
            self.failed_frame_count = 0;
        }
        if scene.backdrop_blurs.len() == 0 {
            if self.blur_free_frames < u32::MAX {
                self.blur_free_frames = self.blur_free_frames + 1;
            }
        } else {
            self.blur_free_frames = 0;
        }
        if self.blur_free_frames >= SCRATCH_RELEASE_AFTER_FRAMES {
            if let Some(resources) = self.resources {
                let mut resources = resources;
                resources.backdrop_scratch = None;
                self.resources = Some(resources);
            }
        }
        FrameStart::Acquire
    }

    /// What to do with the answer of a surface.
    pub open spec fn acquire_action(status: SurfaceStatus) -> AcquireAction {
        match status {
            SurfaceStatus::Success => AcquireAction::Render,
            SurfaceStatus::Suboptimal | SurfaceStatus::Lost | SurfaceStatus::Outdated => {
                AcquireAction::Reconfigure
            },
            _ => AcquireAction::Skip,
        }
    }

    /// Whether an error is noted after the answer of a surface.
    pub open spec fn error_noted(status: SurfaceStatus, before: bool) -> bool {
        before || status is Validation
    }

    /// What to do with the answer of the surface. One that does not pass
    /// validation is noted as an error for the next frame.
    pub fn acquired(&self, status: SurfaceStatus, last_error: &mut Option<String>) -> (r:
        AcquireAction)
        ensures
            r == WgpuRenderer::acquire_action(status),
            *final(last_error) is Some == WgpuRenderer::error_noted(
                status,
                *old(last_error) is Some,
            ),
            r == match status {
                SurfaceStatus::Success => AcquireAction::Render,
                SurfaceStatus::Suboptimal => AcquireAction::Reconfigure,
                SurfaceStatus::Lost => AcquireAction::Reconfigure,
                SurfaceStatus::Outdated => AcquireAction::Reconfigure,
                _ => AcquireAction::Skip,
            },
            !(status is Validation) ==> *final(last_error) == *old(last_error),
            status is Validation ==> {
                &&& *final(last_error) is Some
                &&& (*final(last_error))->0@ == "Surface texture validation error"@
            },
    {
        match status {
            SurfaceStatus::Success => AcquireAction::Render,
            SurfaceStatus::Suboptimal => AcquireAction::Reconfigure,
            SurfaceStatus::Lost => AcquireAction::Reconfigure,
            SurfaceStatus::Outdated => AcquireAction::Reconfigure,
            SurfaceStatus::Timeout => AcquireAction::Skip,
            SurfaceStatus::Occluded => AcquireAction::Skip,
            SurfaceStatus::Validation => {
                *last_error = Some("Surface texture validation error".to_string());
                AcquireAction::Skip
            },
        }
    }

    /// The textures that paths need at the size of the surface.
    pub open spec fn path_textures(self) -> (TextureDescriptor, Option<TextureDescriptor>) {
        let config = self.surface_config;
        (
            path_intermediate(config.format, config.width, config.height),
            path_msaa(
                config.format,
                config.width,
                config.height,
                self.rendering_params.path_sample_count,
            ),
        )
    }

    /// The renderer with the textures that paths need.
    pub open spec fn with_path_textures(self) -> WgpuRenderer {
        if self.resources->0.path_intermediate is Some {
            self
        } else {
            WgpuRenderer {
                resources: Some(
                    Resources {
                        path_intermediate: Some(self.path_textures().0),
                        path_msaa: self.path_textures().1,
                        ..self.resources->0
                    },
                ),
                ..self
            }
        }
    }

    /// Makes sure that the textures for paths exist; gives those to create.
    pub fn ensure_intermediate_textures(&mut self) -> (r: Option<
        (TextureDescriptor, Option<TextureDescriptor>),
    >)
        requires
            old(self).valid(),
            old(self).resources is Some,
        ensures
            final(self).valid(),
            *final(self) == old(self).with_path_textures(),
            r == if old(self).resources->0.path_intermediate is Some {
                None
            } else {
                Some(old(self).path_textures())
            },
    {
        match self.resources {
            None => None,
            Some(resources) => {
                if resources.path_intermediate.is_some() {
                    return None;
                }
                let config = self.surface_config;
                let intermediate = create_path_intermediate(
                    config.format,
                    config.width,
                    config.height,
                );
                let msaa = create_msaa_if_needed(
                    config.format,
                    config.width,
                    config.height,
                    self.rendering_params.path_sample_count,
                );
                let mut resources = resources;
                resources.path_intermediate = Some(intermediate);
                resources.path_msaa = msaa;
                self.resources = Some(resources);
                Some((intermediate, msaa))
            },
        }
    }

    /// What every shader knows of the frame. Paths are drawn to a texture of
    /// their own, not to the surface with its alpha mode.
    pub open spec fn globals_words(self, path: bool) -> Seq<u32> {
        seq![
            Float32::of(Value::from_nat(self.surface_config.width as nat)).bits,
            Float32::of(Value::from_nat(self.surface_config.height as nat)).bits,
            if !path && self.surface_config.alpha_mode is PreMultiplied {
                1u32
            } else {
                0u32
            },
            0u32,
        ]
    }

    /// How text is smoothed.
    pub open spec fn gamma_words(self) -> Seq<u32> {
        let params = self.rendering_params;
        seq![
            params.gamma_ratios[0].bits,
            params.gamma_ratios[1].bits,
            params.gamma_ratios[2].bits,
            params.gamma_ratios[3].bits,
            params.grayscale_enhanced_contrast.bits,
            params.subpixel_enhanced_contrast.bits,
            if self.is_bgr {
                1u32
            } else {
                0u32
            },
            0u32,
        ]
    }

    fn globals(&self, path: bool) -> (r: Vec<u32>)
        ensures
            r@ == self.globals_words(path),
    {
        let params = GlobalParams {
            viewport_size: [
                Float32::from_u32(self.surface_config.width),
                Float32::from_u32(self.surface_config.height),
            ],
            premultiplied_alpha: !path && self.surface_config.alpha_mode
                == CompositeAlphaMode::PreMultiplied,
        };
        params.to_words()
    }

    /// What is written to the buffer of globals, and where.
    pub open spec fn uniform_writes(self) -> Seq<(int, Seq<u32>)> {
        seq![
            (0, self.globals_words(false)),
            (self.uniforms.path_globals_offset as int, self.globals_words(true)),
            (self.uniforms.gamma_offset as int, self.gamma_words()),
        ]
    }

    /// The words of the globals, of the globals of paths and of the parameters
    /// of text, each with its offset in the buffer of globals.
    pub fn frame_uniforms(&self) -> (r: [(u64, Vec<u32>); 3])
        ensures
            forall|i: int|
                0 <= i < 3 ==> (r[i].0 as int, r[i].1@) == #[trigger] self.uniform_writes()[i],
            r[0].0 == 0,
            r[0].1@ == self.globals_words(false),
            r[1].0 == self.uniforms.path_globals_offset,
            r[1].1@ == self.globals_words(true),
            r[2].0 == self.uniforms.gamma_offset,
            r[2].1@ == self.gamma_words(),
    {
        let gamma = GammaParams {
            gamma_ratios: self.rendering_params.gamma_ratios,
            grayscale_enhanced_contrast: self.rendering_params.grayscale_enhanced_contrast,
            subpixel_enhanced_contrast: self.rendering_params.subpixel_enhanced_contrast,
            is_bgr: self.is_bgr,
        };
        [
            (0, self.globals(false)),
            (self.uniforms.path_globals_offset, self.globals(true)),
            (self.uniforms.gamma_offset, gamma.to_words()),
        ]
    }
}


/// What follows on the recording of a frame.
#[derive(Clone, Copy, Debug, PartialEq, Eq, Structural)]
pub enum AttemptEnd {
    /// Submit it and present the frame.
    Submit,
    /// Drop it, replace the instance buffer by one of this size, and go on with
    /// the next attempt.
    Grow { capacity: u64 },
    /// Drop it and present the frame as it is: the instance buffer cannot grow.
    GiveUp,
}

/// One recording of a frame. Its commands are carried out even if the recording
/// is dropped in the end: textures that they create stay in use.
#[derive(Debug)]
pub struct Attempt {
    pub commands: Vec<Command>,
    pub end: AttemptEnd,
}

/// An attempt, with its commands as a sequence.
pub struct AttemptSteps {
    pub steps: Seq<Step>,
    pub end: AttemptEnd,
}

impl View for Attempt {
    type V = AttemptSteps;

    open spec fn view(&self) -> AttemptSteps {
        AttemptSteps { steps: steps_of(self.commands@), end: self.end }
    }
}

/// The attempts at a frame, and what they leave behind.
pub struct Drawing {
    pub attempts: Seq<AttemptSteps>,
    pub capacity: u64,
    pub scratch: Option<BackdropScratch>,
}

/// The size of an instance buffer that replaces a full one.
pub open spec fn grown_capacity(capacity: u64, max_buffer_size: u64) -> u64 {
    if 2 * capacity > max_buffer_size {
        max_buffer_size
    } else {
        (2 * capacity) as u64
    }
}

/// One attempt at a frame, and the textures of blurs after it.
#[verifier::opaque]
pub open spec fn attempt_made(
    params: FrameParams,
    max_buffer_size: u64,
    scratch: Option<BackdropScratch>,
    scene: Scene,
    batches: Seq<PrimitiveBatch>,
    kernels: Seq<Vec<Float32>>,
) -> (AttemptSteps, Option<BackdropScratch>) {
    let (progress, ok) = frame_drawn(params, scratch, scene, batches, kernels);
    let end = if ok {
        AttemptEnd::Submit
    } else if params.capacity >= max_buffer_size {
        AttemptEnd::GiveUp
    } else {
        AttemptEnd::Grow { capacity: grown_capacity(params.capacity, max_buffer_size) }
    };
    (AttemptSteps { steps: progress.steps, end }, progress.scratch)
}

/// Attempts with a larger and larger instance buffer, until the frame fits or
/// the buffer cannot grow.
pub open spec fn attempts_made(
    params: FrameParams,
    max_buffer_size: u64,
    scratch: Option<BackdropScratch>,
    scene: Scene,
    batches: Seq<PrimitiveBatch>,
    kernels: Seq<Vec<Float32>>,
) -> Drawing
    decreases max_buffer_size - params.capacity,
{
    let (attempt, after) = attempt_made(
        params,
        max_buffer_size,
        scratch,
        scene,
        batches,
        kernels,
    );
    match attempt.end {
        AttemptEnd::Grow { capacity } if params.capacity < capacity <= max_buffer_size => {
            let rest = attempts_made(
                FrameParams { capacity, ..params },
                max_buffer_size,
                after,
                scene,
                batches,
                kernels,
            );
            Drawing { attempts: seq![attempt] + rest.attempts, ..rest }
        },
        _ => Drawing { attempts: seq![attempt], capacity: params.capacity, scratch: after },
    }
}

/// Makes one attempt at a frame.
fn make_attempt(
    params: &FrameParams,
    max_buffer_size: u64,
    scratch: Option<BackdropScratch>,
    scene: &Scene,
    batches: &Vec<PrimitiveBatch>,
    kernels: &Vec<Vec<Float32>>,
) -> (r: (Attempt, Option<BackdropScratch>))
    requires
        params.valid(),
        params.capacity > 0,
        batches_match(*params, *scene, batches@),
        kernels_match(*scene, kernels@),
        scratch is Some ==> scratch->0.valid(),
    ensures
        (r.0@, r.1) == attempt_made(
            *params,
            max_buffer_size,
            scratch,
            *scene,
            batches@,
            kernels@,
        ),
        r.1 is Some ==> r.1->0.valid(),
        r.0.end matches AttemptEnd::Grow { capacity } ==> params.capacity < capacity
            <= max_buffer_size,
{
    proof {
        reveal(attempt_made);
        lemma_scratch_stays_valid(*params, scratch, *scene, batches@, kernels@);
    }
    let mut recorder = Recorder::new(scratch);
    let ok = recorder.record_frame(params, scene, batches, kernels);
    let end = if ok {
        AttemptEnd::Submit
    } else if params.capacity >= max_buffer_size {
        AttemptEnd::GiveUp
    } else {
        AttemptEnd::Grow { capacity: grow_instance_buffer(params.capacity, max_buffer_size) }
    };
    (Attempt { commands: recorder.commands, end }, recorder.scratch)
}

/// The size of an instance buffer that replaces a full one.
pub fn grow_instance_buffer(capacity: u64, max_buffer_size: u64) -> (r: u64)
    ensures
        r == grown_capacity(capacity, max_buffer_size),
{
    if capacity > max_buffer_size / 2 {
        max_buffer_size
    } else {
        2 * capacity
    }
}

impl WgpuRenderer {
    /// What drawing a frame depends on.
    pub open spec fn frame_params(self) -> FrameParams {
        FrameParams {
            capacity: self.instance_buffer_capacity,
            alignment: self.storage_buffer_alignment,
            width: self.surface_config.width,
            height: self.surface_config.height,
            software: self.adapter_info.device_type is Cpu,
            path_intermediate: self.resources->0.path_intermediate is Some,
            path_msaa: self.resources->0.path_msaa is Some,
            subpixel_pipeline: self.dual_source_blending && self.device_dual_source_blending,
            backdrop_blur_supported: self.backdrop_blur_supported,
            uniforms: self.uniforms,
        }
    }

    fn find_frame_params(&self, resources: &Resources) -> (r: FrameParams)
        requires
            self.valid(),
            self.resources == Some(*resources),
        ensures
            r == self.frame_params(),
            r.valid(),
    {
        FrameParams {
            capacity: self.instance_buffer_capacity,
            alignment: self.storage_buffer_alignment,
            width: self.surface_config.width,
            height: self.surface_config.height,
            software: self.adapter_info.device_type == DeviceType::Cpu,
            path_intermediate: resources.path_intermediate.is_some(),
            path_msaa: resources.path_msaa.is_some(),
            subpixel_pipeline: self.dual_source_blending && self.device_dual_source_blending,
            backdrop_blur_supported: self.backdrop_blur_supported,
            uniforms: self.uniforms,
        }
    }

    /// The attempts at drawing a frame.
    pub open spec fn drawing(
        self,
        scene: Scene,
        batches: Seq<PrimitiveBatch>,
        kernels: Seq<Vec<Float32>>,
    ) -> Drawing {
        attempts_made(
            self.frame_params(),
            self.max_buffer_size,
            self.resources->0.backdrop_scratch,
            scene,
            batches,
            kernels,
        )
    }

    /// The renderer after drawing a frame.
    pub open spec fn after_drawing(self, drawing: Drawing) -> WgpuRenderer {
        WgpuRenderer {
            instance_buffer_capacity: drawing.capacity,
            resources: Some(
                Resources { backdrop_scratch: drawing.scratch, ..self.resources->0 },
            ),
            ..self
        }
    }

    /// Draws a frame to the texture that the surface has given. The frame is
    /// recorded again with a larger instance buffer as long as it does not fit.
    ///
    /// `batches` are the batches of the scene in paint order, and `kernels` the
    /// exponentials of [`crate::backdrop::kernel_exponents`] for each blur.
    pub fn draw(
        &mut self,
        scene: &Scene,
        batches: &Vec<PrimitiveBatch>,
        kernels: &Vec<Vec<Float32>>,
    ) -> (r: Vec<Attempt>)
        requires
            old(self).valid(),
            old(self).resources is Some,
            batches_match(old(self).frame_params(), *scene, batches@),
            kernels_match(*scene, kernels@),
        ensures
            final(self).valid(),
            r@.map_values(|a: Attempt| a@) == old(self).drawing(
                *scene,
                batches@,
                kernels@,
            ).attempts,
            *final(self) == old(self).after_drawing(
                old(self).drawing(*scene, batches@, kernels@),
            ),
    {
        let ghost whole = self.drawing(*scene, batches@, kernels@);
        let ghost start = *self;
        let mut r: Vec<Attempt> = Vec::new();
        let mut resources = match self.resources {
            Some(resources) => resources,
            None => {
                return r;
            },
        };
        let mut params = self.find_frame_params(&resources);
        let max_buffer_size: u64 = self.max_buffer_size;
        proof {
            assert(r@.map_values(|a: Attempt| a@) =~= seq![]);
            assert(whole.attempts =~= seq![] + whole.attempts);
        }
        loop
            invariant
                start.valid(),
                *self == start,
                start == *old(self),
                start.resources is Some,
                params == (FrameParams { capacity: params.capacity, ..start.frame_params() }),
                params.capacity > 0,
                resources.backdrop_scratch is Some ==> resources.backdrop_scratch->0.valid(),
                max_buffer_size == start.max_buffer_size,
                resources == (Resources {
                    backdrop_scratch: resources.backdrop_scratch,
                    ..start.resources->0
                }),
                batches_match(start.frame_params(), *scene, batches@),
                kernels_match(*scene, kernels@),
                ({
                    let rest = attempts_made(
                        params,
                        max_buffer_size,
                        resources.backdrop_scratch,
                        *scene,
                        batches@,
                        kernels@,
                    );
                    &&& whole.attempts == r@.map_values(|a: Attempt| a@) + rest.attempts
                    &&& whole.capacity == rest.capacity
                    &&& whole.scratch == rest.scratch
                }),
                whole == start.drawing(*scene, batches@, kernels@),
            decreases max_buffer_size - params.capacity,
        {
            let ghost before = r@;
            let ghost rest = attempts_made(
                params,
                max_buffer_size,
                resources.backdrop_scratch,
                *scene,
                batches@,
                kernels@,
            );
            let (attempt, scratch) = make_attempt(
                &params,
                max_buffer_size,
                resources.backdrop_scratch,
                scene,
                batches,
                kernels,
            );
            resources.backdrop_scratch = scratch;
            let end = attempt.end;
            r.push(attempt);
            assert(r@.map_values(|a: Attempt| a@) =~= before.map_values(|a: Attempt| a@).push(
                attempt@,
            ));
            match end {
                AttemptEnd::Grow { capacity } => {
                    proof {
                        let next = attempts_made(
                            FrameParams { capacity, ..params },
                            max_buffer_size,
                            scratch,
                            *scene,
                            batches@,
                            kernels@,
                        );
                        assert(rest.attempts == seq![attempt@] + next.attempts);
                        assert(r@.map_values(|a: Attempt| a@) + next.attempts =~= before.map_values(
                            |a: Attempt| a@,
                        ) + rest.attempts);
                    }
                    params.capacity = capacity;
                },
                _ => {
                    assert(r@.map_values(|a: Attempt| a@) =~= whole.attempts);
                    self.instance_buffer_capacity = params.capacity;
                    self.resources = Some(resources);
                    return r;
                },
            }
        }
    }
}


/// Whether a new context is needed.
pub open spec fn context_needed(context_lost: Option<bool>) -> bool {
    context_lost != Some(false)
}

/// Whether a renderer that has lost its device needs a new context, or can use
/// one that another window has recovered already. `context_lost` tells of the
/// shared context, if there is one, whether its device is lost.
pub fn needs_new_context(context_lost: Option<bool>) -> (r: bool)
    ensures
        r == context_needed(context_lost),
        r == (context_lost != Some(false)),
{
    match context_lost {
        None => true,
        Some(lost) => lost,
    }
}

impl WgpuRenderer {
    /// What the window asks for when its renderer is made anew.
    pub open spec fn same_config(self) -> WgpuSurfaceConfig {
        WgpuSurfaceConfig {
            size: Size {
                width: DevicePixels(self.surface_config.width as i32),
                height: DevicePixels(self.surface_config.height as i32),
            },
            transparent: !(self.surface_config.alpha_mode is Opaque),
            preferred_present_mode: Some(self.surface_config.present_mode),
        }
    }

    /// What the window asks for when its renderer is made anew.
    pub fn recovery_config(&self) -> (r: WgpuSurfaceConfig)
        ensures
            r == self.same_config(),
    {
        WgpuSurfaceConfig {
            size: Size {
                width: DevicePixels(self.surface_config.width as i32),
                height: DevicePixels(self.surface_config.height as i32),
            },
            transparent: self.surface_config.alpha_mode != CompositeAlphaMode::Opaque,
            preferred_present_mode: Some(self.surface_config.present_mode),
        }
    }

    /// Makes the renderer anew after its device was lost, for the same window,
    /// with what the adapter and device that took its place offer. If that fails,
    /// the renderer is left without resources.
    pub fn recover(
        &mut self,
        caps: &SurfaceCapabilities,
        limits: DeviceLimits,
        dual_source_blending: bool,
        rendering_params: RenderingParameters,
        adapter_info: AdapterInfo,
    ) -> (r: Result<(), SurfaceError>)
        requires
            old(self).valid(),
            limits.min_uniform_buffer_offset_alignment > 0,
            limits.min_storage_buffer_offset_alignment > 0,
        ensures
            final(self).valid(),
            r matches Err(error) ==> WgpuRenderer::creation_error(*caps) == Some(error),
            r is Ok ==> WgpuRenderer::creation_error(*caps) is None,
            r == if caps.formats@.len() == 0 {
                Err(SurfaceError::NoTextureFormats)
            } else if caps.alpha_modes@.len() == 0 {
                Err(SurfaceError::NoAlphaModes)
            } else {
                Ok(())
            },
            *final(self) == if r is Ok {
                WgpuRenderer::created(
                    old(self).same_config(),
                    *caps,
                    limits,
                    dual_source_blending,
                    rendering_params,
                    adapter_info,
                )
            } else {
                WgpuRenderer { resources: None, ..*old(self) }
            },
    {
        let config = self.recovery_config();
        self.resources = None;
        match WgpuRenderer::new(
            config,
            caps,
            limits,
            dual_source_blending,
            rendering_params,
            adapter_info,
        ) {
            Ok(renderer) => {
                *self = renderer;
                Ok(())
            },
            Err(error) => Err(error),
        }
    }
}

} // verus!
