use zui::float::Float32;
use zui::pipelines::{
    create_bind_group_layouts, create_msaa_if_needed, create_path_intermediate, create_pipelines,
    describe_pipeline, BindingType, Blend, BlendFactor, ColorWrites, DataLayout, PipelineKind,
    ShaderModule, ShaderStages, Topology,
};
use zui::surface::{
    choose_format, choose_present_mode, clamp_length, font_gamma, pick_alpha_mode,
    CompositeAlphaMode, PresentMode, RenderingParameters, SurfaceError, TextureFormat,
};
use zui::uniforms::{next_multiple, BlurPassUniform, GammaParams, GlobalParams, UniformLayout};

fn f(x: f32) -> Float32 {
    Float32::from_bits(x.to_bits())
}

fn linear(code: u32) -> TextureFormat {
    TextureFormat::Other { code, srgb: false }
}

fn srgb(code: u32) -> TextureFormat {
    TextureFormat::Other { code, srgb: true }
}

#[test]
fn formats_are_preferred_in_order() {
    let (bgra, rgba) = (TextureFormat::Bgra8Unorm, TextureFormat::Rgba8Unorm);
    assert_eq!(choose_format(&vec![srgb(1), rgba, bgra]), Ok(bgra));
    assert_eq!(choose_format(&vec![linear(3), rgba]), Ok(rgba));
    assert_eq!(choose_format(&vec![srgb(1), linear(2), linear(3)]), Ok(linear(2)));
    assert_eq!(choose_format(&vec![srgb(4), srgb(5)]), Ok(srgb(4)));
    assert_eq!(choose_format(&vec![]), Err(SurfaceError::NoTextureFormats));
}

#[test]
fn alpha_modes_fall_back_to_the_first_offered() {
    let (opaque, inherit) = (CompositeAlphaMode::Opaque, CompositeAlphaMode::Inherit);
    let pick = |offered: Vec<CompositeAlphaMode>| pick_alpha_mode(&offered, opaque, inherit);
    assert_eq!(pick(vec![inherit, opaque]), Ok(opaque));
    assert_eq!(pick(vec![CompositeAlphaMode::Auto, inherit]), Ok(inherit));
    assert_eq!(
        pick(vec![CompositeAlphaMode::PostMultiplied, CompositeAlphaMode::Auto]),
        Ok(CompositeAlphaMode::PostMultiplied)
    );
    assert_eq!(pick(vec![]), Err(SurfaceError::NoAlphaModes));
}

#[test]
fn present_mode_is_used_only_if_supported() {
    let offered = vec![PresentMode::Fifo, PresentMode::Mailbox];
    assert_eq!(
        choose_present_mode(Some(PresentMode::Mailbox), &offered),
        PresentMode::Mailbox
    );
    assert_eq!(choose_present_mode(Some(PresentMode::Immediate), &offered), PresentMode::Fifo);
    assert_eq!(choose_present_mode(None, &offered), PresentMode::Fifo);
}

#[test]
fn lengths_are_clamped() {
    assert_eq!(clamp_length(0, 8192), 1);
    assert_eq!(clamp_length(640, 8192), 640);
    assert_eq!(clamp_length(9000, 8192), 8192);
    assert_eq!(clamp_length(9000, 0), 1);
}

#[test]
fn text_settings_have_defaults_and_limits() {
    assert_eq!(font_gamma(None), f(1.8));
    assert_eq!(font_gamma(Some(f(0.2))), f(1.0));
    assert_eq!(font_gamma(Some(f(2.0))), f(2.0));
    assert_eq!(font_gamma(Some(f(7.0))), f(2.2));
    let ratios = [f(0.1), f(0.2), f(0.3), f(0.4)];
    let defaults = RenderingParameters::new(&vec![1, 4], ratios, None, None);
    assert_eq!(defaults.path_sample_count, 4);
    assert_eq!(defaults.gamma_ratios, ratios);
    assert_eq!(defaults.grayscale_enhanced_contrast, f(1.0));
    assert_eq!(defaults.subpixel_enhanced_contrast, f(0.5));
    let set = RenderingParameters::new(&vec![1, 2], ratios, Some(f(-1.0)), Some(f(3.5)));
    assert_eq!(set.path_sample_count, 2);
    assert_eq!(set.grayscale_enhanced_contrast, f(0.0));
    assert_eq!(set.subpixel_enhanced_contrast, f(3.5));
    assert_eq!(RenderingParameters::new(&vec![8], ratios, None, None).path_sample_count, 1);
}

#[test]
fn uniforms_have_aligned_places() {
    let layout = UniformLayout::new(256);
    assert_eq!(layout.path_globals_offset, 256);
    assert_eq!(layout.gamma_offset, 512);
    assert_eq!(layout.globals_buffer_size, 544);
    assert_eq!(layout.backdrop_slot_stride, 768);
    assert_eq!(layout.backdrop_buffer_size, 768 * 96);
    let packed = UniformLayout::new(16);
    assert_eq!(packed.path_globals_offset, 16);
    assert_eq!(packed.gamma_offset, 32);
    assert_eq!(packed.globals_buffer_size, 64);
    assert_eq!(packed.backdrop_slot_stride, 560);
    let wide = UniformLayout::new(4096);
    assert_eq!(wide.backdrop_slot_stride, 4096);
    assert_eq!(layout.slot(0, 0), 0);
    assert_eq!(layout.slot(2, 1), 768 * 7);
    assert_eq!(layout.slot(31, 2) + 768, layout.backdrop_buffer_size);
    assert_eq!(next_multiple(0, 7), 0);
    assert_eq!(next_multiple(8, 7), 14);
    assert_eq!(next_multiple(14, 7), 14);
}

#[test]
fn uniform_words_are_padded() {
    let globals = GlobalParams { viewport_size: [f(640.0), f(480.0)], premultiplied_alpha: true };
    assert_eq!(globals.to_words(), vec![640f32.to_bits(), 480f32.to_bits(), 1, 0]);
    let gamma = GammaParams {
        gamma_ratios: [f(1.0), f(2.0), f(3.0), f(4.0)],
        grayscale_enhanced_contrast: f(5.0),
        subpixel_enhanced_contrast: f(6.0),
        is_bgr: true,
    };
    let bits = |x: f32| x.to_bits();
    assert_eq!(
        gamma.to_words(),
        vec![bits(1.0), bits(2.0), bits(3.0), bits(4.0), bits(5.0), bits(6.0), 1, 0]
    );
    let mut weights = [[f(0.0); 4]; 33];
    weights[1][2] = f(9.0);
    let pass = BlurPassUniform {
        direction: [f(1.0), f(0.0)],
        sigma: f(2.0),
        stride: f(3.0),
        source_texel_size: [f(4.0), f(5.0)],
        weights,
    };
    let words = pass.to_words();
    assert_eq!(words.len(), 140);
    assert_eq!(
        words[..8],
        [bits(1.0), 0, bits(2.0), bits(3.0), bits(4.0), bits(5.0), 0, 0]
    );
    assert_eq!(words[8 + 6], bits(9.0));
}

#[test]
fn subpixel_pipeline_needs_the_feature() {
    let kinds = |dual: bool, feature: bool| -> Vec<PipelineKind> {
        create_pipelines(CompositeAlphaMode::Opaque, 4, dual, feature)
            .iter()
            .map(|p| p.kind)
            .collect()
    };
    assert_eq!(kinds(true, true).len(), 13);
    assert_eq!(kinds(true, true)[8], PipelineKind::SubpixelSprites);
    assert_eq!(kinds(true, false).len(), 12);
    assert_eq!(kinds(false, true).len(), 12);
    assert!(!kinds(true, false).contains(&PipelineKind::SubpixelSprites));
}

#[test]
fn pipelines_have_their_state() {
    let blend_of = |mode: CompositeAlphaMode| create_pipelines(mode, 4, false, false)[0].blend;
    assert_eq!(blend_of(CompositeAlphaMode::PreMultiplied), Some(Blend::PremultipliedAlpha));
    assert_eq!(blend_of(CompositeAlphaMode::Inherit), Some(Blend::Alpha));
    let describe = |kind: PipelineKind| describe_pipeline(kind, Blend::Alpha, 4);
    let raster = describe(PipelineKind::PathRasterization);
    assert_eq!(raster.name, "path_rasterization");
    assert_eq!(raster.vertex_entry, "vs_path_rasterization");
    assert_eq!(raster.fragment_entry, "fs_path_rasterization");
    assert_eq!(raster.topology, Topology::TriangleList);
    assert_eq!(raster.blend, Some(Blend::PremultipliedAlpha));
    assert_eq!(raster.sample_count, 4);
    let opaque = describe(PipelineKind::OpaqueSolidQuads);
    assert_eq!(opaque.vertex_entry, "vs_quad");
    assert_eq!(opaque.fragment_entry, "fs_opaque_solid_quad");
    assert_eq!(opaque.blend, None);
    assert_eq!(opaque.sample_count, 1);
    let paths = describe(PipelineKind::Paths);
    assert_eq!(paths.data_layout, DataLayout::InstancesWithTexture);
    assert_eq!(
        paths.blend,
        Some(Blend::Factors {
            color_source: BlendFactor::One,
            color_destination: BlendFactor::OneMinusSrcAlpha,
            alpha_source: BlendFactor::One,
            alpha_destination: BlendFactor::One,
        })
    );
    let subpixel = describe(PipelineKind::SubpixelSprites);
    assert_eq!(subpixel.module, ShaderModule::DualSource);
    assert_eq!(subpixel.write_mask, ColorWrites::Color);
    assert_eq!(describe(PipelineKind::BackdropComposite).fragment_entry, "fs_backdrop_blur");
    assert_eq!(describe(PipelineKind::BackdropComposite).blend, None);
    assert_eq!(describe(PipelineKind::Surfaces).data_layout, DataLayout::Surfaces);
}

#[test]
fn bind_groups_are_numbered() {
    let layouts = create_bind_group_layouts();
    for (entries, len) in [
        (&layouts.globals, 2),
        (&layouts.instances, 1),
        (&layouts.instances_with_texture, 3),
        (&layouts.surfaces, 4),
        (&layouts.backdrop, 3),
    ] {
        assert_eq!(entries.len(), len);
        for (i, entry) in entries.iter().enumerate() {
            assert_eq!(entry.binding as usize, i);
        }
    }
    assert_eq!(
        layouts.globals[0].ty,
        BindingType::Uniform { min_binding_size: Some(16) }
    );
    assert_eq!(layouts.globals[0].visibility, ShaderStages::VertexFragment);
    assert_eq!(layouts.globals[1].visibility, ShaderStages::Fragment);
    assert_eq!(
        layouts.globals[1].ty,
        BindingType::Uniform { min_binding_size: Some(32) }
    );
    assert_eq!(layouts.backdrop[0].ty, BindingType::Uniform { min_binding_size: None });
    assert_eq!(layouts.instances[0].ty, BindingType::ReadOnlyStorage);
}

#[test]
fn path_textures_match_the_sample_count() {
    let format = TextureFormat::Bgra8Unorm;
    let plain = create_path_intermediate(format, 0, 7);
    assert_eq!((plain.label, plain.width, plain.height), ("path_intermediate", 1, 7));
    assert_eq!(plain.sample_count, 1);
    assert!(plain.usage.texture_binding && plain.usage.render_attachment);
    assert!(create_msaa_if_needed(format, 4, 4, 1).is_none());
    let msaa = create_msaa_if_needed(format, 4, 0, 2).unwrap();
    assert_eq!((msaa.label, msaa.width, msaa.height), ("path_msaa", 4, 1));
    assert_eq!(msaa.sample_count, 2);
    assert!(!msaa.usage.texture_binding && msaa.usage.render_attachment);
}
