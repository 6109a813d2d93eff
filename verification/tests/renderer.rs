use zui::backdrop::{kernel_exponents, BackdropScratch};
use zui::commands::{BackdropSource, Command, Globals, TextureSource};
use zui::float::Float32;
use zui::frame::batch_first_order;
use zui::geometry::{rectangle, Bounds, Corners, DevicePixels, Point, ScaledPixels, Size};
use zui::layout::Words;
use zui::pipelines::PipelineKind;
use zui::renderer::{
    exceeds_limit, grow_instance_buffer, needs_new_context, AcquireAction, Attempt, AttemptEnd,
    DeviceLimits, FrameStart, ResizeAction, SurfaceStatus, WgpuRenderer,
};
use zui::scene::{
    quad, AtlasTextureId, AtlasTextureKind, AtlasTile, BackdropBlur, Background, ContentMask,
    EdgeFadeParams, Path, PathVertex, PolychromeSprite, Primitive, PrimitiveBatch, Quad, Scene,
};
use zui::surface::{
    AdapterInfo, CompositeAlphaMode, DeviceType, PresentMode, RenderingParameters,
    SurfaceCapabilities, SurfaceError, TextureFormat, WgpuSurfaceConfig,
};

fn f(x: f32) -> Float32 {
    Float32::from_bits(x.to_bits())
}

fn px(x: f32) -> ScaledPixels {
    ScaledPixels(f(x))
}

fn rect(x: f32, y: f32, width: f32, height: f32) -> Bounds<ScaledPixels> {
    rectangle(f(x), f(y), f(width), f(height))
}

fn size(width: i32, height: i32) -> Size<DevicePixels> {
    Size { width: DevicePixels(width), height: DevicePixels(height) }
}

fn config(width: i32, height: i32) -> WgpuSurfaceConfig {
    WgpuSurfaceConfig {
        size: size(width, height),
        transparent: false,
        preferred_present_mode: None,
    }
}

fn caps() -> SurfaceCapabilities {
    SurfaceCapabilities {
        formats: vec![TextureFormat::Bgra8Unorm],
        present_modes: vec![PresentMode::Fifo, PresentMode::Mailbox],
        alpha_modes: vec![CompositeAlphaMode::Opaque, CompositeAlphaMode::PreMultiplied],
        copy_source: true,
    }
}

fn limits() -> DeviceLimits {
    DeviceLimits {
        max_texture_dimension_2d: 4096,
        min_uniform_buffer_offset_alignment: 256,
        min_storage_buffer_offset_alignment: 64,
        max_buffer_size: 16 * 1024 * 1024,
        dual_source_blending: false,
    }
}

fn adapter(device_type: DeviceType) -> AdapterInfo {
    AdapterInfo {
        device_type,
        name: String::from("adapter"),
        driver: String::from("driver"),
        driver_info: String::from("info"),
    }
}

fn parameters() -> RenderingParameters {
    RenderingParameters::new(&vec![1, 4], [f(1.0), f(2.0), f(3.0), f(4.0)], None, None)
}

fn renderer_on(device_type: DeviceType) -> WgpuRenderer {
    WgpuRenderer::new(config(640, 480), &caps(), limits(), true, parameters(), adapter(device_type))
        .unwrap()
}

fn renderer() -> WgpuRenderer {
    renderer_on(DeviceType::DiscreteGpu)
}

fn scene() -> Scene {
    Scene {
        backdrop_blurs: vec![],
        shadows: vec![],
        quads: vec![],
        paths: vec![],
        underlines: vec![],
        monochrome_sprites: vec![],
        subpixel_sprites: vec![],
        polychrome_sprites: vec![],
        surfaces: vec![],
    }
}

fn texture() -> AtlasTextureId {
    AtlasTextureId { index: 3, kind: AtlasTextureKind::Monochrome }
}

fn primitive(order: u32, words: &[u32]) -> Primitive {
    Primitive { order, words: words.to_vec() }
}

fn blur(order: u32) -> BackdropBlur {
    BackdropBlur {
        order,
        bounds: rect(100.0, 100.0, 50.0, 50.0),
        content_mask: ContentMask { bounds: rect(0.0, 0.0, 640.0, 480.0) },
        corner_radii: Corners {
            top_left: px(0.0),
            top_right: px(0.0),
            bottom_right: px(0.0),
            bottom_left: px(0.0),
        },
        blur_radius: px(8.0),
    }
}

fn kernels(scene: &Scene) -> Vec<Vec<Float32>> {
    scene
        .backdrop_blurs
        .iter()
        .map(|b| {
            kernel_exponents(b)
                .iter()
                .map(|x| f(f32::from_bits(x.to_bits()).exp()))
                .collect()
        })
        .collect()
}

fn draw(r: &mut WgpuRenderer, scene: &Scene, batches: Vec<PrimitiveBatch>) -> Vec<Attempt> {
    r.ensure_intermediate_textures();
    let kernels = kernels(scene);
    r.draw(scene, &batches, &kernels)
}

/// A short name for each command.
fn names(commands: &[Command]) -> Vec<String> {
    commands
        .iter()
        .map(|c| match c {
            Command::BeginMainPass => String::from("main"),
            Command::ContinueMainPass => String::from("continue"),
            Command::BeginPathPass { msaa } => format!("path pass {msaa}"),
            Command::BeginBlurPass { vertical } => format!("blur pass {vertical}"),
            Command::CreateScratch { .. } => String::from("create"),
            Command::CopyToSnapshot { x, y, .. } => format!("copy {x} {y}"),
            Command::WriteBackdropUniform { offset, .. } => format!("uniform {offset}"),
            Command::WriteInstances { offset, words } => format!("write {offset} {}", words.len()),
            Command::SetPipeline { kind } => format!("{kind:?}"),
            Command::BindInstances { offset, size, .. } => format!("bind {offset} {size}"),
            Command::BindBackdrop { offset, size, source } => {
                format!("backdrop {offset} {size} {source:?}")
            }
            Command::SetScissor { x, y, width, height } => {
                format!("scissor {x} {y} {width} {height}")
            }
            Command::Draw { vertices, instances } => format!("draw {vertices} {instances}"),
        })
        .collect()
}

fn quad_words(quads: &[Quad]) -> Vec<u32> {
    let mut w = Words::new();
    for q in quads {
        w.push_quad(q);
    }
    w.words
}

fn written(commands: &[Command]) -> Vec<u32> {
    let mut all = Vec::new();
    for c in commands {
        if let Command::WriteInstances { words, .. } = c {
            all.extend_from_slice(words);
        }
    }
    all
}

#[test]
fn new_renderer_is_configured_within_limits() {
    let r = renderer();
    assert!(r.surface_configured);
    assert_eq!((r.surface_config.width, r.surface_config.height), (640, 480));
    assert_eq!(r.surface_config.alpha_mode, CompositeAlphaMode::Opaque);
    assert_eq!(r.surface_config.present_mode, PresentMode::Fifo);
    assert_eq!(r.surface_config.desired_maximum_frame_latency, 2);
    assert_eq!(r.instance_buffer_capacity, 2 * 1024 * 1024);
    assert!(r.backdrop_blur_supported);
    let big = WgpuRenderer::new(
        WgpuSurfaceConfig {
            size: size(5000, -1),
            transparent: true,
            preferred_present_mode: Some(PresentMode::Mailbox),
        },
        &caps(),
        limits(),
        false,
        parameters(),
        adapter(DeviceType::Cpu),
    )
    .unwrap();
    assert_eq!((big.surface_config.width, big.surface_config.height), (4096, 4096));
    assert_eq!(big.surface_config.alpha_mode, CompositeAlphaMode::PreMultiplied);
    assert_eq!(big.surface_config.present_mode, PresentMode::Mailbox);
    assert!(exceeds_limit(size(5000, 1), 4096));
    assert!(!exceeds_limit(size(4096, 0), 4096));
}

#[test]
fn missing_capabilities_are_errors() {
    let make = |caps: SurfaceCapabilities| {
        WgpuRenderer::new(
            config(1, 1),
            &caps,
            limits(),
            false,
            parameters(),
            adapter(DeviceType::Other),
        )
        .map(|_| ())
    };
    let mut no_formats = caps();
    no_formats.formats.clear();
    no_formats.alpha_modes.clear();
    assert_eq!(make(no_formats), Err(SurfaceError::NoTextureFormats));
    let mut no_alpha = caps();
    no_alpha.alpha_modes.clear();
    assert_eq!(make(no_alpha), Err(SurfaceError::NoAlphaModes));
    assert_eq!(make(caps()), Ok(()));
}

#[test]
fn resizing_drops_textures_and_settles() {
    let mut r = renderer();
    assert_eq!(r.update_drawable_size(size(640, 480)), ResizeAction::Keep);
    r.ensure_intermediate_textures();
    assert_eq!(
        r.update_drawable_size(size(800, 600)),
        ResizeAction::Reconfigure { destroy_path_intermediate: true, destroy_path_msaa: true }
    );
    assert!(r.resources.unwrap().path_intermediate.is_none());
    assert_eq!(r.update_drawable_size(size(800, 600)), ResizeAction::Keep);
    assert_eq!(
        r.update_drawable_size(size(0, 9999)),
        ResizeAction::Reconfigure { destroy_path_intermediate: false, destroy_path_msaa: false }
    );
    assert_eq!((r.surface_config.width, r.surface_config.height), (1, 4096));
    assert_eq!(r.viewport_size(), size(1, 4096));
    r.destroy();
    assert_eq!(r.update_drawable_size(size(64, 64)), ResizeAction::Keep);
    assert_eq!(r.viewport_size(), size(64, 64));
}

#[test]
fn transparency_rebuilds_pipelines_once() {
    let mut r = renderer();
    assert!(r.update_transparency(false).is_none());
    let pipelines = r.update_transparency(true).unwrap();
    assert_eq!(pipelines.len(), 12);
    assert_eq!(r.surface_config.alpha_mode, CompositeAlphaMode::PreMultiplied);
    assert!(r.update_transparency(true).is_none());
    r.destroy();
    assert!(r.update_transparency(false).is_none());
    assert_eq!(r.surface_config.alpha_mode, CompositeAlphaMode::Opaque);
}

#[test]
fn facts_are_reported() {
    let mut r = renderer_on(DeviceType::Cpu);
    let specs = r.gpu_specs();
    assert!(specs.is_software_emulated);
    assert_eq!(specs.device_name, "adapter");
    assert_eq!(specs.driver_name, "driver");
    assert_eq!(specs.driver_info, "info");
    assert!(!renderer().gpu_specs().is_software_emulated);
    assert_eq!(r.max_texture_size(), 4096);
    assert!(r.supports_dual_source_blending());
    r.set_subpixel_layout(true);
    assert!(r.is_bgr);
}

#[test]
fn unconfigured_surface_is_not_drawn_to() {
    let mut r = renderer();
    r.ensure_intermediate_textures();
    r.unconfigure_surface();
    assert!(r.resources.unwrap().path_intermediate.is_none());
    let mut error = Some(String::from("late"));
    assert_eq!(r.begin_frame(&mut error, &scene()), FrameStart::Skip);
    assert_eq!(error.as_deref(), Some("late"));
    let new = r.replace_surface(
        WgpuSurfaceConfig {
            size: size(5000, 0),
            transparent: true,
            preferred_present_mode: Some(PresentMode::Mailbox),
        },
        &caps().present_modes,
    );
    assert_eq!((new.width, new.height), (5000, 1));
    assert_eq!(new.alpha_mode, CompositeAlphaMode::PreMultiplied);
    assert_eq!(new.present_mode, PresentMode::Mailbox);
    assert_eq!(r.begin_frame(&mut error, &scene()), FrameStart::Acquire);
    assert_eq!(error, None);
}

#[test]
fn new_surface_uses_the_preferred_mode_only_if_it_offers_it() {
    let mut r = renderer();
    let mut replace = |preferred_present_mode, offered: Vec<PresentMode>| {
        let mut wanted = config(64, 64);
        wanted.preferred_present_mode = preferred_present_mode;
        r.replace_surface(wanted, &offered).present_mode
    };
    let (fifo, mailbox) = (PresentMode::Fifo, PresentMode::Mailbox);
    assert_eq!(replace(Some(mailbox), vec![fifo, mailbox]), mailbox);
    // Without a preference the mode from before is not kept.
    assert_eq!(replace(None, vec![fifo, mailbox]), fifo);
    assert_eq!(replace(Some(mailbox), vec![fifo, mailbox]), mailbox);
    assert_eq!(replace(Some(PresentMode::Immediate), vec![fifo, mailbox]), fifo);
    assert_eq!(replace(Some(mailbox), vec![]), fifo);
    assert_eq!(r.surface_config.present_mode, fifo);
}

#[test]
fn sixth_error_in_a_row_clears_everything() {
    let mut r = renderer();
    r.ensure_intermediate_textures();
    for count in 1..=5 {
        let mut error = Some(String::from("error"));
        assert_eq!(r.begin_frame(&mut error, &scene()), FrameStart::Acquire);
        assert_eq!(r.failed_frame_count, count);
    }
    assert!(!r.needs_redraw());
    let mut error = Some(String::from("error"));
    assert_eq!(r.begin_frame(&mut error, &scene()), FrameStart::ClearAtlas);
    assert_eq!(r.failed_frame_count, 0);
    assert!(r.resources.unwrap().path_intermediate.is_none());
    assert!(r.needs_redraw());
    assert!(!r.needs_redraw());
    let mut error = Some(String::from("error"));
    r.begin_frame(&mut error, &scene());
    assert_eq!(r.failed_frame_count, 1);
    r.begin_frame(&mut None, &scene());
    assert_eq!(r.failed_frame_count, 0);
}

#[test]
fn scratch_is_released_after_a_quiet_run() {
    let mut r = renderer();
    let scratch = BackdropScratch {
        width: 256,
        height: 256,
        downsample: 1,
        blur_width: 256,
        blur_height: 256,
    };
    let mut resources = r.resources.unwrap();
    resources.backdrop_scratch = Some(scratch);
    r.resources = Some(resources);
    for _ in 0..29 {
        r.begin_frame(&mut None, &scene());
    }
    assert_eq!(r.resources.unwrap().backdrop_scratch, Some(scratch));
    let mut with_blur = scene();
    with_blur.backdrop_blurs.push(blur(0));
    r.begin_frame(&mut None, &with_blur);
    assert_eq!(r.blur_free_frames, 0);
    for _ in 0..30 {
        assert!(r.resources.unwrap().backdrop_scratch.is_some());
        r.begin_frame(&mut None, &scene());
    }
    assert!(r.resources.unwrap().backdrop_scratch.is_none());
}

#[test]
fn surface_answers_decide_the_frame() {
    let r = renderer();
    let mut error = None;
    let mut ask = |status| r.acquired(status, &mut error);
    assert_eq!(ask(SurfaceStatus::Success), AcquireAction::Render);
    assert_eq!(ask(SurfaceStatus::Suboptimal), AcquireAction::Reconfigure);
    assert_eq!(ask(SurfaceStatus::Lost), AcquireAction::Reconfigure);
    assert_eq!(ask(SurfaceStatus::Outdated), AcquireAction::Reconfigure);
    assert_eq!(ask(SurfaceStatus::Timeout), AcquireAction::Skip);
    assert_eq!(ask(SurfaceStatus::Occluded), AcquireAction::Skip);
    assert_eq!(ask(SurfaceStatus::Validation), AcquireAction::Skip);
    assert_eq!(error.as_deref(), Some("Surface texture validation error"));
}

#[test]
fn intermediate_textures_are_created_once() {
    let mut r = renderer();
    let (intermediate, msaa) = r.ensure_intermediate_textures().unwrap();
    assert_eq!((intermediate.width, intermediate.height), (640, 480));
    assert_eq!(msaa.unwrap().sample_count, 4);
    assert!(r.ensure_intermediate_textures().is_none());
}

#[test]
fn frame_uniforms_have_their_places() {
    let mut r = renderer();
    r.update_transparency(true);
    r.set_subpixel_layout(true);
    let [globals, path_globals, gamma] = r.frame_uniforms();
    assert_eq!(globals, (0, vec![640f32.to_bits(), 480f32.to_bits(), 1, 0]));
    assert_eq!(path_globals, (256, vec![640f32.to_bits(), 480f32.to_bits(), 0, 0]));
    assert_eq!(gamma.0, 512);
    assert_eq!(gamma.1[..3], [1f32.to_bits(), 2f32.to_bits(), 3f32.to_bits()]);
    assert_eq!(gamma.1[4..], [1f32.to_bits(), 0.5f32.to_bits(), 1, 0]);
}

#[test]
fn empty_frame_is_cleared_and_submitted() {
    let mut r = renderer();
    let attempts = draw(&mut r, &scene(), vec![]);
    assert_eq!(attempts.len(), 1);
    assert_eq!(attempts[0].end, AttemptEnd::Submit);
    assert_eq!(names(&attempts[0].commands), ["main"]);
}

#[test]
fn hardware_draws_a_batch_of_quads_at_once() {
    let mut r = renderer();
    let mut s = scene();
    s.quads = vec![quad(), quad(), quad()];
    s.quads[1].corner_radii.top_left = px(4.0);
    let attempts = draw(&mut r, &s, vec![PrimitiveBatch::Quads(0..3)]);
    assert_eq!(
        names(&attempts[0].commands),
        ["main", "write 0 144", "Quads", "bind 0 576", "draw 4 3"]
    );
    assert_eq!(written(&attempts[0].commands), quad_words(&s.quads));
    let attempts = draw(&mut r, &s, vec![PrimitiveBatch::Quads(2..3)]);
    assert_eq!(names(&attempts[0].commands)[2], "SolidQuads");
    s.quads[2].background.solid.a = f(1.0);
    let attempts = draw(&mut r, &s, vec![PrimitiveBatch::Quads(2..3)]);
    assert_eq!(names(&attempts[0].commands)[2], "OpaqueSolidQuads");
    let attempts = draw(&mut r, &s, vec![PrimitiveBatch::Quads(3..3)]);
    assert_eq!(names(&attempts[0].commands), ["main"]);
}

#[test]
fn software_splits_quads_in_paint_order() {
    let mut r = renderer_on(DeviceType::Cpu);
    let mut s = scene();
    s.quads = vec![quad(), quad(), quad(), quad()];
    s.quads[1].order = 1;
    s.quads[2].order = 2;
    s.quads[2].corner_radii.top_left = px(4.0);
    s.quads[3].order = 3;
    let attempts = draw(&mut r, &s, vec![PrimitiveBatch::Quads(0..4)]);
    assert_eq!(
        names(&attempts[0].commands),
        [
            "main",
            "write 0 96",
            "SolidQuads",
            "bind 0 384",
            "draw 4 2",
            "write 384 48",
            "bind 384 192",
            "Quads",
            "scissor 0 0 5 480",
            "draw 4 1",
            "scissor 251 0 389 480",
            "draw 4 1",
            "scissor 5 0 246 5",
            "draw 4 1",
            "scissor 5 251 246 229",
            "draw 4 1",
            "SolidQuads",
            "scissor 5 5 246 246",
            "draw 4 1",
            "scissor 0 0 640 480",
            "write 576 48",
            "SolidQuads",
            "bind 576 192",
            "draw 4 1",
        ]
    );
    assert_eq!(written(&attempts[0].commands), quad_words(&s.quads));
}

#[test]
fn primitives_use_their_pipelines_and_textures() {
    let mut r = renderer();
    let mut s = scene();
    s.shadows = vec![primitive(0, &[1, 2])];
    s.underlines = vec![primitive(1, &[3, 4, 5, 6, 7])];
    s.monochrome_sprites = vec![primitive(2, &[8])];
    s.subpixel_sprites = vec![primitive(3, &[9])];
    let attempts = draw(
        &mut r,
        &s,
        vec![
            PrimitiveBatch::Shadows(0..1),
            PrimitiveBatch::Underlines(0..1),
            PrimitiveBatch::MonochromeSprites { texture_id: texture(), range: 0..1 },
            PrimitiveBatch::SubpixelSprites { texture_id: texture(), range: 0..1 },
            PrimitiveBatch::Surfaces(0..0),
        ],
    );
    let commands = &attempts[0].commands;
    assert_eq!(
        names(commands),
        [
            "main",
            "write 0 2",
            "Shadows",
            "bind 0 16",
            "draw 4 1",
            "write 64 5",
            "Underlines",
            "bind 64 20",
            "draw 4 1",
            "write 128 1",
            "MonoSprites",
            "bind 128 16",
            "draw 4 1",
            "write 192 1",
            "MonoSprites",
            "bind 192 16",
            "draw 4 1",
        ]
    );
    assert!(matches!(
        commands[11],
        Command::BindInstances {
            globals: Globals::Main,
            texture: Some(TextureSource::Atlas(_)),
            ..
        }
    ));
    assert!(matches!(commands[3], Command::BindInstances { texture: None, .. }));
}

#[test]
fn subpixel_text_has_its_pipeline_with_dual_source_blending() {
    let mut with_feature = limits();
    with_feature.dual_source_blending = true;
    let mut r = WgpuRenderer::new(
        config(64, 64),
        &caps(),
        with_feature,
        true,
        parameters(),
        adapter(DeviceType::IntegratedGpu),
    )
    .unwrap();
    let mut s = scene();
    s.subpixel_sprites = vec![primitive(0, &[1])];
    let batch = PrimitiveBatch::SubpixelSprites { texture_id: texture(), range: 0..1 };
    let attempts = draw(&mut r, &s, vec![batch]);
    assert_eq!(names(&attempts[0].commands)[2], "SubpixelSprites");
    assert_eq!(r.current_pipelines().len(), 13);
}

#[test]
fn polychrome_sprites_are_written_whole() {
    let mut r = renderer();
    let mut s = scene();
    let z = f(0.0);
    s.polychrome_sprites = vec![PolychromeSprite {
        order: 9,
        pad: 0,
        grayscale: false,
        opacity: f(1.0),
        bounds: rect(1.0, 2.0, 3.0, 4.0),
        content_mask: ContentMask { bounds: rect(0.0, 0.0, 10.0, 10.0) },
        corner_radii: quad().corner_radii,
        fade: EdgeFadeParams {
            top_y: z,
            bottom_y: z,
            band_top: z,
            band_bottom: z,
            left_x: z,
            right_x: z,
            band_left: z,
            band_right: z,
        },
        tile: AtlasTile {
            texture_id: texture(),
            tile_id: 1,
            padding: 2,
            bounds: Bounds {
                origin: Point { x: DevicePixels(0), y: DevicePixels(0) },
                size: size(8, 8),
            },
        },
    }];
    let batch = PrimitiveBatch::PolychromeSprites { texture_id: texture(), range: 0..1 };
    assert_eq!(batch_first_order(&s, &batch), 9);
    let attempts = draw(&mut r, &s, vec![batch]);
    assert_eq!(
        names(&attempts[0].commands),
        ["main", "write 0 32", "PolySprites", "bind 0 128", "draw 4 1"]
    );
}

fn path(order: u32, x: f32) -> Path {
    let vertex = PathVertex {
        xy_position: Point { x: px(x), y: px(0.0) },
        st_position: Point { x: f(0.0), y: f(1.0) },
    };
    Path {
        order,
        bounds: rect(x, 0.0, 10.0, 10.0),
        content_mask: ContentMask { bounds: rect(0.0, 0.0, 100.0, 5.0) },
        color: quad().background,
        vertices: vec![vertex, vertex, vertex],
    }
}

#[test]
fn paths_go_through_their_own_texture() {
    let mut r = renderer();
    let mut s = scene();
    s.paths = vec![path(4, 0.0), path(4, 20.0)];
    let attempts = draw(&mut r, &s, vec![PrimitiveBatch::Paths(0..2)]);
    let commands = &attempts[0].commands;
    assert_eq!(
        names(commands),
        [
            "main",
            "write 0 156",
            "path pass true",
            "PathRasterization",
            "bind 0 624",
            "draw 6 1",
            "continue",
            "write 640 8",
            "Paths",
            "bind 640 32",
            "draw 4 2",
        ]
    );
    assert!(matches!(commands[4], Command::BindInstances { globals: Globals::Path, .. }));
    assert!(matches!(
        commands[9],
        Command::BindInstances { texture: Some(TextureSource::PathIntermediate), .. }
    ));
    // Paths at several places in the draw order are put on the frame together.
    s.paths[1].order = 5;
    let attempts = draw(&mut r, &s, vec![PrimitiveBatch::Paths(0..2)]);
    let sprites = &written(&attempts[0].commands)[156..];
    let bits = |x: f32| x.to_bits();
    assert_eq!(sprites, [bits(0.0), bits(0.0), bits(30.0), bits(5.0)]);
    // Paths without vertices still break the pass.
    s.paths[0].vertices.clear();
    let attempts = draw(&mut r, &s, vec![PrimitiveBatch::Paths(0..1)]);
    assert_eq!(
        names(&attempts[0].commands),
        ["main", "continue", "write 0 4", "Paths", "bind 0 16", "draw 4 1"]
    );
}

#[test]
fn blurs_are_drawn_before_the_batch_above_them() {
    let mut r = renderer();
    let mut s = scene();
    s.quads = vec![quad(), quad()];
    s.quads[1].order = 10;
    s.backdrop_blurs = vec![blur(5), blur(11)];
    let attempts = draw(
        &mut r,
        &s,
        vec![PrimitiveBatch::Quads(0..1), PrimitiveBatch::Quads(1..2)],
    );
    assert_eq!(
        names(&attempts[0].commands),
        [
            "main",
            "write 0 48",
            "SolidQuads",
            "bind 0 192",
            "draw 4 1",
            "create",
            "copy 74 74",
            "uniform 0",
            "uniform 768",
            "uniform 1536",
            "blur pass false",
            "BackdropBlurPass",
            "backdrop 0 560 Snapshot",
            "scissor 24 0 54 102",
            "draw 4 1",
            "blur pass true",
            "BackdropBlurPass",
            "backdrop 768 560 Horizontal",
            "scissor 25 25 52 52",
            "draw 4 1",
            "continue",
            "BackdropComposite",
            "backdrop 1536 64 Vertical",
            "draw 4 1",
            "write 192 48",
            "SolidQuads",
            "bind 192 192",
            "draw 4 1",
        ]
    );
    assert!(matches!(
        attempts[0].commands[22],
        Command::BindBackdrop { source: BackdropSource::Vertical, .. }
    ));
    assert_eq!(r.resources.unwrap().backdrop_scratch.unwrap().width, 256);
    // The textures are there for the next frame.
    let attempts = draw(&mut r, &s, vec![PrimitiveBatch::Quads(1..2)]);
    assert!(!names(&attempts[0].commands).contains(&String::from("create")));
}

#[test]
fn batches_without_primitives_draw_nothing_once_no_blur_is_left() {
    let mut r = renderer();
    let mut s = scene();
    s.quads = vec![quad()];
    s.backdrop_blurs = vec![blur(0)];
    let alone = names(&draw(&mut r, &s, vec![PrimitiveBatch::Quads(0..1)])[0].commands);
    assert!(alone.contains(&String::from("BackdropComposite")));
    let batches = || vec![PrimitiveBatch::Quads(0..1), PrimitiveBatch::Shadows(0..0)];
    let with_empty = names(&draw(&mut renderer(), &s, batches())[0].commands);
    assert_eq!(with_empty, alone);
}

#[test]
fn surfaces_are_not_looked_at_once_no_blur_is_left() {
    let mut s = scene();
    s.quads = vec![quad()];
    s.backdrop_blurs = vec![blur(0)];
    let alone = draw(&mut renderer(), &s, vec![PrimitiveBatch::Quads(0..1)]);
    let batches = vec![PrimitiveBatch::Quads(0..1), PrimitiveBatch::Surfaces(3..7)];
    let with_surfaces = draw(&mut renderer(), &s, batches);
    assert_eq!(names(&with_surfaces[0].commands), names(&alone[0].commands));
}

#[test]
fn clipped_blur_only_breaks_the_pass() {
    let mut r = renderer();
    let mut s = scene();
    s.quads = vec![quad()];
    let mut outside = blur(0);
    outside.bounds = rect(5000.0, 0.0, 10.0, 10.0);
    outside.content_mask.bounds = outside.bounds;
    s.backdrop_blurs = vec![outside];
    let attempts = draw(&mut r, &s, vec![PrimitiveBatch::Quads(0..1)]);
    assert_eq!(names(&attempts[0].commands)[..2], ["main", "continue"]);
}

#[test]
fn blurs_need_support_and_are_limited() {
    let mut no_copies = caps();
    no_copies.copy_source = false;
    let mut r = WgpuRenderer::new(
        config(640, 480),
        &no_copies,
        limits(),
        false,
        parameters(),
        adapter(DeviceType::DiscreteGpu),
    )
    .unwrap();
    let mut s = scene();
    s.quads = vec![quad()];
    for _ in 0..40 {
        s.backdrop_blurs.push(blur(0));
    }
    let composites = |attempts: &Vec<Attempt>| {
        names(&attempts[0].commands)
            .iter()
            .filter(|name| *name == "BackdropComposite")
            .count()
    };
    let attempts = draw(&mut r, &s, vec![PrimitiveBatch::Quads(0..1)]);
    assert_eq!(composites(&attempts), 0);
    let attempts = draw(&mut renderer(), &s, vec![PrimitiveBatch::Quads(0..1)]);
    assert_eq!(composites(&attempts), 32);
}

#[test]
fn instance_buffer_grows_until_the_frame_fits() {
    let mut r = renderer();
    let mut s = scene();
    // Five megabytes in two batches.
    s.shadows = vec![primitive(0, &vec![7; 600_000]), primitive(1, &vec![8; 700_000])];
    let batches = || vec![PrimitiveBatch::Shadows(0..1), PrimitiveBatch::Shadows(1..2)];
    let attempts = draw(&mut r, &s, batches());
    let ends: Vec<AttemptEnd> = attempts.iter().map(|a| a.end).collect();
    let mib = 1024 * 1024;
    assert_eq!(
        ends,
        [
            AttemptEnd::Grow { capacity: 4 * mib },
            AttemptEnd::Grow { capacity: 8 * mib },
            AttemptEnd::Submit
        ]
    );
    assert_eq!(r.instance_buffer_capacity, 8 * mib);
    assert_eq!(names(&attempts[1].commands).len(), 5);
    assert_eq!(names(&attempts[2].commands)[5], "write 2400000 700000");
    // The larger buffer is kept.
    assert_eq!(draw(&mut r, &s, batches()).len(), 1);
    // Beyond the limit the frame is given up.
    s.shadows.push(primitive(2, &vec![9; 5_000_000]));
    let attempts = draw(&mut r, &s, vec![PrimitiveBatch::Shadows(2..3)]);
    assert_eq!(attempts.len(), 2);
    assert_eq!(attempts[0].end, AttemptEnd::Grow { capacity: 16 * mib });
    assert_eq!(attempts[1].end, AttemptEnd::GiveUp);
    assert_eq!(grow_instance_buffer(3, 5), 5);
    assert_eq!(grow_instance_buffer(u64::MAX - 1, u64::MAX), u64::MAX);
}

#[test]
fn recovery_keeps_the_window() {
    assert!(needs_new_context(None));
    assert!(needs_new_context(Some(true)));
    assert!(!needs_new_context(Some(false)));
    let mut r = renderer();
    r.update_drawable_size(size(800, 600));
    r.update_transparency(true);
    r.set_subpixel_layout(true);
    assert_eq!(
        r.recovery_config(),
        WgpuSurfaceConfig {
            size: size(800, 600),
            transparent: true,
            preferred_present_mode: Some(PresentMode::Fifo),
        }
    );
    let mut none = caps();
    none.formats.clear();
    assert_eq!(
        r.recover(&none, limits(), false, parameters(), adapter(DeviceType::DiscreteGpu)),
        Err(SurfaceError::NoTextureFormats)
    );
    assert!(r.resources.is_none());
    assert_eq!(
        r.recover(&caps(), limits(), false, parameters(), adapter(DeviceType::DiscreteGpu)),
        Ok(())
    );
    assert!(r.resources.is_some());
    assert!(!r.is_bgr);
    assert_eq!((r.surface_config.width, r.surface_config.height), (800, 600));
    assert_eq!(r.surface_config.alpha_mode, CompositeAlphaMode::PreMultiplied);
}

#[test]
fn first_orders_come_from_the_start_of_a_batch() {
    let mut s = scene();
    s.quads = vec![quad(), quad()];
    s.quads[1].order = 3;
    s.shadows = vec![primitive(4, &[])];
    s.paths = vec![path(5, 0.0)];
    s.underlines = vec![primitive(6, &[])];
    s.monochrome_sprites = vec![primitive(7, &[])];
    s.subpixel_sprites = vec![primitive(8, &[])];
    s.surfaces = vec![primitive(9, &[])];
    let texture_id = texture();
    for (batch, order) in [
        (PrimitiveBatch::Quads(1..2), 3),
        (PrimitiveBatch::Shadows(0..1), 4),
        (PrimitiveBatch::Paths(0..1), 5),
        (PrimitiveBatch::Underlines(0..1), 6),
        (PrimitiveBatch::MonochromeSprites { texture_id, range: 0..1 }, 7),
        (PrimitiveBatch::SubpixelSprites { texture_id, range: 0..1 }, 8),
        (PrimitiveBatch::Surfaces(0..1), 9),
    ] {
        assert_eq!(batch_first_order(&s, &batch), order);
    }
}

#[test]
fn opaque_interiors_replace_what_is_below() {
    let mut r = renderer_on(DeviceType::Cpu);
    let mut s = scene();
    let mut q = quad();
    q.background = Background::from_color(q.background.solid);
    q.background.solid.a = f(1.0);
    q.border_widths.top = px(2.0);
    s.quads = vec![q];
    let attempts = draw(&mut r, &s, vec![PrimitiveBatch::Quads(0..1)]);
    let kinds: Vec<PipelineKind> = attempts[0]
        .commands
        .iter()
        .filter_map(|c| match c {
            Command::SetPipeline { kind } => Some(*kind),
            _ => None,
        })
        .collect();
    assert_eq!(kinds, [PipelineKind::Quads, PipelineKind::OpaqueSolidQuads]);
}

#[test]
fn recorded_frames_are_sound() {
    for device_type in [DeviceType::Cpu, DeviceType::DiscreteGpu] {
        let mut r = renderer_on(device_type);
        let mut s = scene();
        for order in 0..20 {
            let mut q = quad();
            q.order = order;
            if order % 3 == 0 {
                q.corner_radii.top_left = px(order as f32);
            }
            s.quads.push(q);
            s.shadows.push(primitive(order, &vec![order; 1 + order as usize]));
            s.paths.push(path(order, order as f32));
            let mut b = blur(order);
            b.bounds = rect(30.0 * order as f32, 20.0 * order as f32, 200.0, 100.0);
            b.blur_radius = px(3.0 * order as f32);
            s.backdrop_blurs.push(b);
        }
        let mut batches = Vec::new();
        for i in 0..20 {
            batches.push(PrimitiveBatch::Shadows(i..i + 1));
            batches.push(PrimitiveBatch::Quads(i..i + 1));
            batches.push(PrimitiveBatch::Paths(i..i + 1));
        }
        let attempts = draw(&mut r, &s, batches);
        let mut instances_end = 0;
        let mut uniforms_end = 0;
        let mut instance_parts = Vec::new();
        let mut uniform_parts = Vec::new();
        for command in &attempts[0].commands {
            match command {
                Command::WriteInstances { offset, words } => {
                    let size = (4 * words.len() as u64).max(16);
                    assert_eq!(offset % 64, 0);
                    assert!(*offset >= instances_end);
                    instances_end = offset + size;
                    assert!(instances_end <= r.instance_buffer_capacity);
                    instance_parts.push((*offset, size));
                }
                Command::WriteBackdropUniform { offset, words } => {
                    assert!(*offset >= uniforms_end);
                    uniforms_end = offset + 560;
                    assert!(uniforms_end <= r.uniforms.backdrop_buffer_size);
                    uniform_parts.push((*offset, 4 * words.len() as u64));
                }
                Command::BindInstances { offset, size, .. } => {
                    assert!(instance_parts.contains(&(*offset, *size)));
                }
                Command::BindBackdrop { offset, size, .. } => {
                    assert!(uniform_parts.contains(&(*offset, *size)));
                }
                Command::CopyToSnapshot { x, y, width, height } => {
                    assert!(x + width <= 640 && y + height <= 480);
                }
                _ => {}
            }
        }
        assert_eq!(attempts[0].end, AttemptEnd::Submit);
        assert_eq!(uniform_parts.len() % 3, 0);
        assert!(uniform_parts.len() > 30);
    }
}
