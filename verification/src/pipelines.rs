//! Descriptions of the pipelines, bind group layouts and textures that drawing
//! needs.
use crate::surface::{CompositeAlphaMode, TextureFormat};
use crate::uniforms::{GAMMA_SIZE, GLOBALS_SIZE, SURFACE_PARAMS_SIZE};
use vstd::prelude::*;

verus! {

/// A shader pair with its fixed state.
#[derive(Clone, Copy, Debug, PartialEq, Eq, Structural)]
pub enum PipelineKind {
    Quads,
    SolidQuads,
    OpaqueSolidQuads,
    Shadows,
    PathRasterization,
    Paths,
    Underlines,
    MonoSprites,
    SubpixelSprites,
    PolySprites,
    Surfaces,
    BackdropBlurPass,
    BackdropComposite,
}

/// The bind group that a pipeline reads its data from.
#[derive(Clone, Copy, Debug, PartialEq, Eq, Structural)]
pub enum DataLayout {
    Instances,
    InstancesWithTexture,
    Surfaces,
    /// A uniform, a texture and a sampler: shared by the passes of a blur and
    /// its composite, each with its own small uniform at an explicit offset.
    Backdrop,
}

#[derive(Clone, Copy, Debug, PartialEq, Eq, Structural)]
pub enum Topology {
    TriangleStrip,
    TriangleList,
}

#[derive(Clone, Copy, Debug, PartialEq, Eq, Structural)]
pub enum BlendFactor {
    One,
    OneMinusSrcAlpha,
    Src1,
    OneMinusSrc1,
}

/// How a fragment is added to what it is drawn over.
#[derive(Clone, Copy, Debug, PartialEq, Eq, Structural)]
pub enum Blend {
    /// By an opacity that the color is not multiplied with yet.
    Alpha,
    /// By an opacity that the color is already multiplied with.
    PremultipliedAlpha,
    Factors {
        color_source: BlendFactor,
        color_destination: BlendFactor,
        alpha_source: BlendFactor,
        alpha_destination: BlendFactor,
    },
}

#[derive(Clone, Copy, Debug, PartialEq, Eq, Structural)]
pub enum ColorWrites {
    All,
    /// All but the opacity.
    Color,
}

/// The shader source that a pipeline is built from.
#[derive(Clone, Copy, Debug, PartialEq, Eq, Structural)]
pub enum ShaderModule {
    Base,
    /// The base source with dual source blending and the subpixel shaders.
    DualSource,
}

/// What differs between pipelines.
#[derive(Clone, Copy, Debug)]
pub struct PipelineDescriptor {
    pub kind: PipelineKind,
    pub name: &'static str,
    pub vertex_entry: &'static str,
    pub fragment_entry: &'static str,
    pub data_layout: DataLayout,
    pub topology: Topology,
    /// `None` replaces what is drawn over.
    pub blend: Option<Blend>,
    pub write_mask: ColorWrites,
    pub sample_count: u32,
    pub module: ShaderModule,
}

/// How most pipelines blend into a surface with this alpha mode.
pub open spec fn surface_blend(alpha_mode: CompositeAlphaMode) -> Blend {
    if alpha_mode is PreMultiplied {
        Blend::PremultipliedAlpha
    } else {
        Blend::Alpha
    }
}

/// The description of one pipeline.
pub open spec fn described(
    kind: PipelineKind,
    blend: Blend,
    path_sample_count: u32,
) -> PipelineDescriptor {
    match kind {
        PipelineKind::Quads => PipelineDescriptor {
            kind,
            name: "quads",
            vertex_entry: "vs_quad",
            fragment_entry: "fs_quad",
            data_layout: DataLayout::Instances,
            topology: Topology::TriangleStrip,
            blend: Some(blend),
            write_mask: ColorWrites::All,
            sample_count: 1,
            module: ShaderModule::Base,
        },
        PipelineKind::SolidQuads => PipelineDescriptor {
            kind,
            name: "solid_quads",
            vertex_entry: "vs_quad",
            fragment_entry: "fs_solid_quad",
            data_layout: DataLayout::Instances,
            topology: Topology::TriangleStrip,
            blend: Some(blend),
            write_mask: ColorWrites::All,
            sample_count: 1,
            module: ShaderModule::Base,
        },
        PipelineKind::OpaqueSolidQuads => PipelineDescriptor {
            kind,
            name: "opaque_solid_quads",
            vertex_entry: "vs_quad",
            fragment_entry: "fs_opaque_solid_quad",
            data_layout: DataLayout::Instances,
            topology: Topology::TriangleStrip,
            blend: None,
            write_mask: ColorWrites::All,
            sample_count: 1,
            module: ShaderModule::Base,
        },
        PipelineKind::Shadows => PipelineDescriptor {
            kind,
            name: "shadows",
            vertex_entry: "vs_shadow",
            fragment_entry: "fs_shadow",
            data_layout: DataLayout::Instances,
            topology: Topology::TriangleStrip,
            blend: Some(blend),
            write_mask: ColorWrites::All,
            sample_count: 1,
            module: ShaderModule::Base,
        },
        PipelineKind::PathRasterization => PipelineDescriptor {
            kind,
            name: "path_rasterization",
            vertex_entry: "vs_path_rasterization",
            fragment_entry: "fs_path_rasterization",
            data_layout: DataLayout::Instances,
            topology: Topology::TriangleList,
            blend: Some(Blend::PremultipliedAlpha),
            write_mask: ColorWrites::All,
            sample_count: path_sample_count,
            module: ShaderModule::Base,
        },
        PipelineKind::Paths => PipelineDescriptor {
            kind,
            name: "paths",
            vertex_entry: "vs_path",
            fragment_entry: "fs_path",
            data_layout: DataLayout::InstancesWithTexture,
            topology: Topology::TriangleStrip,
            blend: Some(
            Blend::Factors {
                color_source: BlendFactor::One,
                color_destination: BlendFactor::OneMinusSrcAlpha,
                alpha_source: BlendFactor::One,
                alpha_destination: BlendFactor::One,
            },
            ),
            write_mask: ColorWrites::All,
            sample_count: 1,
            module: ShaderModule::Base,
        },
        PipelineKind::Underlines => PipelineDescriptor {
            kind,
            name: "underlines",
            vertex_entry: "vs_underline",
            fragment_entry: "fs_underline",
            data_layout: DataLayout::Instances,
            topology: Topology::TriangleStrip,
            blend: Some(blend),
            write_mask: ColorWrites::All,
            sample_count: 1,
            module: ShaderModule::Base,
        },
        PipelineKind::MonoSprites => PipelineDescriptor {
            kind,
            name: "mono_sprites",
            vertex_entry: "vs_mono_sprite",
            fragment_entry: "fs_mono_sprite",
            data_layout: DataLayout::InstancesWithTexture,
            topology: Topology::TriangleStrip,
            blend: Some(blend),
            write_mask: ColorWrites::All,
            sample_count: 1,
            module: ShaderModule::Base,
        },
        PipelineKind::SubpixelSprites => PipelineDescriptor {
            kind,
            name: "subpixel_sprites",
            vertex_entry: "vs_subpixel_sprite",
            fragment_entry: "fs_subpixel_sprite",
            data_layout: DataLayout::InstancesWithTexture,
            topology: Topology::TriangleStrip,
            blend: Some(
            Blend::Factors {
                color_source: BlendFactor::Src1,
                color_destination: BlendFactor::OneMinusSrc1,
                alpha_source: BlendFactor::One,
                alpha_destination: BlendFactor::OneMinusSrcAlpha,
            },
            ),
            write_mask: ColorWrites::Color,
            sample_count: 1,
            module: ShaderModule::DualSource,
        },
        PipelineKind::PolySprites => PipelineDescriptor {
            kind,
            name: "poly_sprites",
            vertex_entry: "vs_poly_sprite",
            fragment_entry: "fs_poly_sprite",
            data_layout: DataLayout::InstancesWithTexture,
            topology: Topology::TriangleStrip,
            blend: Some(blend),
            write_mask: ColorWrites::All,
            sample_count: 1,
            module: ShaderModule::Base,
        },
        PipelineKind::Surfaces => PipelineDescriptor {
            kind,
            name: "surfaces",
            vertex_entry: "vs_surface",
            fragment_entry: "fs_surface",
            data_layout: DataLayout::Surfaces,
            topology: Topology::TriangleStrip,
            blend: Some(blend),
            write_mask: ColorWrites::All,
            sample_count: 1,
            module: ShaderModule::Base,
        },
        PipelineKind::BackdropBlurPass => PipelineDescriptor {
            kind,
            name: "backdrop_blur_pass",
            vertex_entry: "vs_blur_pass",
            fragment_entry: "fs_blur_pass",
            data_layout: DataLayout::Backdrop,
            topology: Topology::TriangleStrip,
            blend: None,
            write_mask: ColorWrites::All,
            sample_count: 1,
            module: ShaderModule::Base,
        },
        PipelineKind::BackdropComposite => PipelineDescriptor {
            kind,
            name: "backdrop_composite",
            vertex_entry: "vs_backdrop_blur",
            fragment_entry: "fs_backdrop_blur",
            data_layout: DataLayout::Backdrop,
            topology: Topology::TriangleStrip,
            blend: None,
            write_mask: ColorWrites::All,
            sample_count: 1,
            module: ShaderModule::Base,
        },
    }
}

/// The description of one pipeline.
pub fn describe_pipeline(kind: PipelineKind, blend: Blend, path_sample_count: u32) -> (r:
    PipelineDescriptor)
    ensures
        r == described(kind, blend, path_sample_count),
{
    match kind {
        PipelineKind::Quads => PipelineDescriptor {
            kind,
            name: "quads",
            vertex_entry: "vs_quad",
            fragment_entry: "fs_quad",
            data_layout: DataLayout::Instances,
            topology: Topology::TriangleStrip,
            blend: Some(blend),
            write_mask: ColorWrites::All,
            sample_count: 1,
            module: ShaderModule::Base,
        },
        PipelineKind::SolidQuads => PipelineDescriptor {
            kind,
            name: "solid_quads",
            vertex_entry: "vs_quad",
            fragment_entry: "fs_solid_quad",
            data_layout: DataLayout::Instances,
            topology: Topology::TriangleStrip,
            blend: Some(blend),
            write_mask: ColorWrites::All,
            sample_count: 1,
            module: ShaderModule::Base,
        },
        PipelineKind::OpaqueSolidQuads => PipelineDescriptor {
            kind,
            name: "opaque_solid_quads",
            vertex_entry: "vs_quad",
            fragment_entry: "fs_opaque_solid_quad",
            data_layout: DataLayout::Instances,
            topology: Topology::TriangleStrip,
            blend: None,
            write_mask: ColorWrites::All,
            sample_count: 1,
            module: ShaderModule::Base,
        },
        PipelineKind::Shadows => PipelineDescriptor {
            kind,
            name: "shadows",
            vertex_entry: "vs_shadow",
            fragment_entry: "fs_shadow",
            data_layout: DataLayout::Instances,
            topology: Topology::TriangleStrip,
            blend: Some(blend),
            write_mask: ColorWrites::All,
            sample_count: 1,
            module: ShaderModule::Base,
        },
        PipelineKind::PathRasterization => PipelineDescriptor {
            kind,
            name: "path_rasterization",
            vertex_entry: "vs_path_rasterization",
            fragment_entry: "fs_path_rasterization",
            data_layout: DataLayout::Instances,
            topology: Topology::TriangleList,
            blend: Some(Blend::PremultipliedAlpha),
            write_mask: ColorWrites::All,
            sample_count: path_sample_count,
            module: ShaderModule::Base,
        },
        PipelineKind::Paths => PipelineDescriptor {
            kind,
            name: "paths",
            vertex_entry: "vs_path",
            fragment_entry: "fs_path",
            data_layout: DataLayout::InstancesWithTexture,
            topology: Topology::TriangleStrip,
            blend: Some(
            Blend::Factors {
                color_source: BlendFactor::One,
                color_destination: BlendFactor::OneMinusSrcAlpha,
                alpha_source: BlendFactor::One,
                alpha_destination: BlendFactor::One,
            },
            ),
            write_mask: ColorWrites::All,
            sample_count: 1,
            module: ShaderModule::Base,
        },
        PipelineKind::Underlines => PipelineDescriptor {
            kind,
            name: "underlines",
            vertex_entry: "vs_underline",
            fragment_entry: "fs_underline",
            data_layout: DataLayout::Instances,
            topology: Topology::TriangleStrip,
            blend: Some(blend),
            write_mask: ColorWrites::All,
            sample_count: 1,
            module: ShaderModule::Base,
        },
        PipelineKind::MonoSprites => PipelineDescriptor {
            kind,
            name: "mono_sprites",
            vertex_entry: "vs_mono_sprite",
            fragment_entry: "fs_mono_sprite",
            data_layout: DataLayout::InstancesWithTexture,
            topology: Topology::TriangleStrip,
            blend: Some(blend),
            write_mask: ColorWrites::All,
            sample_count: 1,
            module: ShaderModule::Base,
        },
        PipelineKind::SubpixelSprites => PipelineDescriptor {
            kind,
            name: "subpixel_sprites",
            vertex_entry: "vs_subpixel_sprite",
            fragment_entry: "fs_subpixel_sprite",
            data_layout: DataLayout::InstancesWithTexture,
            topology: Topology::TriangleStrip,
            blend: Some(
            Blend::Factors {
                color_source: BlendFactor::Src1,
                color_destination: BlendFactor::OneMinusSrc1,
                alpha_source: BlendFactor::One,
                alpha_destination: BlendFactor::OneMinusSrcAlpha,
            },
            ),
            write_mask: ColorWrites::Color,
            sample_count: 1,
            module: ShaderModule::DualSource,
        },
        PipelineKind::PolySprites => PipelineDescriptor {
            kind,
            name: "poly_sprites",
            vertex_entry: "vs_poly_sprite",
            fragment_entry: "fs_poly_sprite",
            data_layout: DataLayout::InstancesWithTexture,
            topology: Topology::TriangleStrip,
            blend: Some(blend),
            write_mask: ColorWrites::All,
            sample_count: 1,
            module: ShaderModule::Base,
        },
        PipelineKind::Surfaces => PipelineDescriptor {
            kind,
            name: "surfaces",
            vertex_entry: "vs_surface",
            fragment_entry: "fs_surface",
            data_layout: DataLayout::Surfaces,
            topology: Topology::TriangleStrip,
            blend: Some(blend),
            write_mask: ColorWrites::All,
            sample_count: 1,
            module: ShaderModule::Base,
        },
        PipelineKind::BackdropBlurPass => PipelineDescriptor {
            kind,
            name: "backdrop_blur_pass",
            vertex_entry: "vs_blur_pass",
            fragment_entry: "fs_blur_pass",
            data_layout: DataLayout::Backdrop,
            topology: Topology::TriangleStrip,
            blend: None,
            write_mask: ColorWrites::All,
            sample_count: 1,
            module: ShaderModule::Base,
        },
        PipelineKind::BackdropComposite => PipelineDescriptor {
            kind,
            name: "backdrop_composite",
            vertex_entry: "vs_backdrop_blur",
            fragment_entry: "fs_backdrop_blur",
            data_layout: DataLayout::Backdrop,
            topology: Topology::TriangleStrip,
            blend: None,
            write_mask: ColorWrites::All,
            sample_count: 1,
            module: ShaderModule::Base,
        },
    }
}

/// The pipelines of a renderer. The one for subpixel text is there only with
/// dual source blending.
pub open spec fn pipeline_kinds(dual_source_blending: bool) -> Seq<PipelineKind> {
    seq![
        PipelineKind::Quads,
        PipelineKind::SolidQuads,
        PipelineKind::OpaqueSolidQuads,
        PipelineKind::Shadows,
        PipelineKind::PathRasterization,
        PipelineKind::Paths,
        PipelineKind::Underlines,
        PipelineKind::MonoSprites,
    ] + (if dual_source_blending {
        seq![PipelineKind::SubpixelSprites]
    } else {
        seq![]
    }) + seq![
        PipelineKind::PolySprites,
        PipelineKind::Surfaces,
        PipelineKind::BackdropBlurPass,
        PipelineKind::BackdropComposite,
    ]
}

/// The pipelines of a renderer, in the order in which they are created. Dual
/// source blending is used only where the device has it.
pub fn create_pipelines(
    alpha_mode: CompositeAlphaMode,
    path_sample_count: u32,
    dual_source_blending: bool,
    device_has_feature: bool,
) -> (r: Vec<PipelineDescriptor>)
    ensures
        r@ == pipeline_kinds(dual_source_blending && device_has_feature).map(
            |i: int, kind: PipelineKind|
                described(kind, surface_blend(alpha_mode), path_sample_count),
        ),
{
    let blend = if alpha_mode == CompositeAlphaMode::PreMultiplied {
        Blend::PremultipliedAlpha
    } else {
        Blend::Alpha
    };
    let n: u32 = path_sample_count;
    let mut r: Vec<PipelineDescriptor> = Vec::new();
    r.push(describe_pipeline(PipelineKind::Quads, blend, n));
    r.push(describe_pipeline(PipelineKind::SolidQuads, blend, n));
    r.push(describe_pipeline(PipelineKind::OpaqueSolidQuads, blend, n));
    r.push(describe_pipeline(PipelineKind::Shadows, blend, n));
    r.push(describe_pipeline(PipelineKind::PathRasterization, blend, n));
    r.push(describe_pipeline(PipelineKind::Paths, blend, n));
    r.push(describe_pipeline(PipelineKind::Underlines, blend, n));
    r.push(describe_pipeline(PipelineKind::MonoSprites, blend, n));
    if dual_source_blending && device_has_feature {
        r.push(describe_pipeline(PipelineKind::SubpixelSprites, blend, n));
    }
    r.push(describe_pipeline(PipelineKind::PolySprites, blend, n));
    r.push(describe_pipeline(PipelineKind::Surfaces, blend, n));
    r.push(describe_pipeline(PipelineKind::BackdropBlurPass, blend, n));
    r.push(describe_pipeline(PipelineKind::BackdropComposite, blend, n));
    r
}

/// Every pipeline is created once. The subpixel one is created exactly when dual
/// source blending is asked for and available, and is alone in using it.
pub proof fn law_pipelines_are_complete(dual_source_blending: bool, kind: PipelineKind)
    ensures
        pipeline_kinds(dual_source_blending).no_duplicates(),
        pipeline_kinds(dual_source_blending).contains(kind) <==> (kind is SubpixelSprites
            ==> dual_source_blending),
        forall|blend: Blend, n: u32|
            (#[trigger] described(kind, blend, n)).module is DualSource <==> kind
                is SubpixelSprites,
{
    let kinds = pipeline_kinds(dual_source_blending);
    let k = if dual_source_blending {
        1int
    } else {
        0int
    };
    assert(kinds[0] == PipelineKind::Quads);
    assert(kinds[1] == PipelineKind::SolidQuads);
    assert(kinds[2] == PipelineKind::OpaqueSolidQuads);
    assert(kinds[3] == PipelineKind::Shadows);
    assert(kinds[4] == PipelineKind::PathRasterization);
    assert(kinds[5] == PipelineKind::Paths);
    assert(kinds[6] == PipelineKind::Underlines);
    assert(kinds[7] == PipelineKind::MonoSprites);
    assert(dual_source_blending ==> kinds[8] == PipelineKind::SubpixelSprites);
    assert(kinds[8 + k] == PipelineKind::PolySprites);
    assert(kinds[8 + k + 1] == PipelineKind::Surfaces);
    assert(kinds[8 + k + 2] == PipelineKind::BackdropBlurPass);
    assert(kinds[8 + k + 3] == PipelineKind::BackdropComposite);
}

/// What replaces the pixels below it is drawn without blending: opaque quads,
/// the passes of a blur and its composite. Everything else blends.
pub proof fn law_replacing_pipelines(kind: PipelineKind, blend: Blend, path_sample_count: u32)
    ensures
        described(kind, blend, path_sample_count).blend is None <==> kind is OpaqueSolidQuads
            || kind is BackdropBlurPass || kind is BackdropComposite,
        described(kind, blend, path_sample_count).sample_count == if kind is PathRasterization {
            path_sample_count
        } else {
            1
        },
{
}

/// The shader stages that see a binding.
#[derive(Clone, Copy, Debug, PartialEq, Eq, Structural)]
pub enum ShaderStages {
    Fragment,
    VertexFragment,
}

/// What is bound.
#[derive(Clone, Copy, Debug, PartialEq, Eq, Structural)]
pub enum BindingType {
    Uniform { min_binding_size: Option<u64> },
    ReadOnlyStorage,
    /// A two-dimensional texture of one sample per pixel that can be filtered.
    Texture,
    /// A filtering sampler.
    Sampler,
}

#[derive(Clone, Copy, Debug, PartialEq, Eq, Structural)]
pub struct LayoutEntry {
    pub binding: u32,
    pub visibility: ShaderStages,
    pub ty: BindingType,
}

/// The layouts of all bind groups.
#[derive(Debug)]
pub struct BindGroupLayouts {
    pub globals: Vec<LayoutEntry>,
    pub instances: Vec<LayoutEntry>,
    pub instances_with_texture: Vec<LayoutEntry>,
    pub surfaces: Vec<LayoutEntry>,
    pub backdrop: Vec<LayoutEntry>,
}

/// The layout of the parameters of the frame and of text.
pub open spec fn globals_entries() -> Seq<LayoutEntry> {
    seq![
        LayoutEntry {
            binding: 0,
            visibility: ShaderStages::VertexFragment,
            ty: BindingType::Uniform { min_binding_size: Some(GLOBALS_SIZE) },
        },
        LayoutEntry {
            binding: 1,
            visibility: ShaderStages::Fragment,
            ty: BindingType::Uniform { min_binding_size: Some(GAMMA_SIZE) },
        },
    ]
}

/// The layout of the primitives of a draw call.
pub open spec fn instances_entries() -> Seq<LayoutEntry> {
    seq![
        LayoutEntry {
            binding: 0,
            visibility: ShaderStages::VertexFragment,
            ty: BindingType::ReadOnlyStorage,
        },
    ]
}

/// The layout of the primitives of a draw call and their texture.
pub open spec fn instances_with_texture_entries() -> Seq<LayoutEntry> {
    seq![
        LayoutEntry {
            binding: 0,
            visibility: ShaderStages::VertexFragment,
            ty: BindingType::ReadOnlyStorage,
        },
        LayoutEntry {
            binding: 1,
            visibility: ShaderStages::VertexFragment,
            ty: BindingType::Texture,
        },
        LayoutEntry {
            binding: 2,
            visibility: ShaderStages::VertexFragment,
            ty: BindingType::Sampler,
        },
    ]
}

/// The layout of a surface and its two planes.
pub open spec fn surfaces_entries() -> Seq<LayoutEntry> {
    seq![
        LayoutEntry {
            binding: 0,
            visibility: ShaderStages::VertexFragment,
            ty: BindingType::Uniform { min_binding_size: Some(SURFACE_PARAMS_SIZE) },
        },
        LayoutEntry {
            binding: 1,
            visibility: ShaderStages::Fragment,
            ty: BindingType::Texture,
        },
        LayoutEntry {
            binding: 2,
            visibility: ShaderStages::Fragment,
            ty: BindingType::Texture,
        },
        LayoutEntry {
            binding: 3,
            visibility: ShaderStages::Fragment,
            ty: BindingType::Sampler,
        },
    ]
}

/// The layout of a step of a backdrop blur. The uniform has no minimal size, so
/// that one layout serves both the passes and the composite.
pub open spec fn backdrop_entries() -> Seq<LayoutEntry> {
    seq![
        LayoutEntry {
            binding: 0,
            visibility: ShaderStages::VertexFragment,
            ty: BindingType::Uniform { min_binding_size: None },
        },
        LayoutEntry {
            binding: 1,
            visibility: ShaderStages::Fragment,
            ty: BindingType::Texture,
        },
        LayoutEntry {
            binding: 2,
            visibility: ShaderStages::Fragment,
            ty: BindingType::Sampler,
        },
    ]
}

/// The layouts of all bind groups.
pub fn create_bind_group_layouts() -> (r: BindGroupLayouts)
    ensures
        r.globals@ == globals_entries(),
        r.instances@ == instances_entries(),
        r.instances_with_texture@ == instances_with_texture_entries(),
        r.surfaces@ == surfaces_entries(),
        r.backdrop@ == backdrop_entries(),
{
    let mut globals: Vec<LayoutEntry> = Vec::new();
    globals.push(
        LayoutEntry {
            binding: 0,
            visibility: ShaderStages::VertexFragment,
            ty: BindingType::Uniform { min_binding_size: Some(GLOBALS_SIZE) },
        },
    );
    globals.push(
        LayoutEntry {
            binding: 1,
            visibility: ShaderStages::Fragment,
            ty: BindingType::Uniform { min_binding_size: Some(GAMMA_SIZE) },
        },
    );
    let mut instances: Vec<LayoutEntry> = Vec::new();
    instances.push(
        LayoutEntry {
            binding: 0,
            visibility: ShaderStages::VertexFragment,
            ty: BindingType::ReadOnlyStorage,
        },
    );
    let mut instances_with_texture: Vec<LayoutEntry> = Vec::new();
    instances_with_texture.push(
        LayoutEntry {
            binding: 0,
            visibility: ShaderStages::VertexFragment,
            ty: BindingType::ReadOnlyStorage,
        },
    );
    instances_with_texture.push(
        LayoutEntry {
            binding: 1,
            visibility: ShaderStages::VertexFragment,
            ty: BindingType::Texture,
        },
    );
    instances_with_texture.push(
        LayoutEntry {
            binding: 2,
            visibility: ShaderStages::VertexFragment,
            ty: BindingType::Sampler,
        },
    );
    let mut surfaces: Vec<LayoutEntry> = Vec::new();
    surfaces.push(
        LayoutEntry {
            binding: 0,
            visibility: ShaderStages::VertexFragment,
            ty: BindingType::Uniform { min_binding_size: Some(SURFACE_PARAMS_SIZE) },
        },
    );
    surfaces.push(
        LayoutEntry {
            binding: 1,
            visibility: ShaderStages::Fragment,
            ty: BindingType::Texture,
        },
    );
    surfaces.push(
        LayoutEntry {
            binding: 2,
            visibility: ShaderStages::Fragment,
            ty: BindingType::Texture,
        },
    );
    surfaces.push(
        LayoutEntry {
            binding: 3,
            visibility: ShaderStages::Fragment,
            ty: BindingType::Sampler,
        },
    );
    let mut backdrop: Vec<LayoutEntry> = Vec::new();
    backdrop.push(
        LayoutEntry {
            binding: 0,
            visibility: ShaderStages::VertexFragment,
            ty: BindingType::Uniform { min_binding_size: None },
        },
    );
    backdrop.push(
        LayoutEntry {
            binding: 1,
            visibility: ShaderStages::Fragment,
            ty: BindingType::Texture,
        },
    );
    backdrop.push(
        LayoutEntry {
            binding: 2,
            visibility: ShaderStages::Fragment,
            ty: BindingType::Sampler,
        },
    );
    BindGroupLayouts { globals, instances, instances_with_texture, surfaces, backdrop }
}

/// The bindings of every layout are numbered from zero, in order.
pub proof fn law_bindings_are_numbered(i: int)
    ensures
        0 <= i < globals_entries().len() ==> globals_entries()[i].binding == i,
        0 <= i < instances_entries().len() ==> instances_entries()[i].binding == i,
        0 <= i < instances_with_texture_entries().len()
            ==> instances_with_texture_entries()[i].binding == i,
        0 <= i < surfaces_entries().len() ==> surfaces_entries()[i].binding == i,
        0 <= i < backdrop_entries().len() ==> backdrop_entries()[i].binding == i,
{
}

/// What a texture is used for.
#[derive(Clone, Copy, Debug, PartialEq, Eq, Structural)]
pub struct TextureUsages {
    pub copy_destination: bool,
    pub texture_binding: bool,
    pub render_attachment: bool,
}

/// A two-dimensional texture without mipmaps.
#[derive(Clone, Copy, Debug)]
pub struct TextureDescriptor {
    pub label: &'static str,
    pub width: u32,
    pub height: u32,
    pub sample_count: u32,
    pub format: TextureFormat,
    pub usage: TextureUsages,
}

/// At least one pixel.
pub open spec fn at_least_one(n: u32) -> u32 {
    if n == 0 {
        1
    } else {
        n
    }
}

/// The texture that paths are drawn to before they are put on the frame.
pub open spec fn path_intermediate(
    format: TextureFormat,
    width: u32,
    height: u32,
) -> TextureDescriptor {
    TextureDescriptor {
        label: "path_intermediate",
        width: at_least_one(width),
        height: at_least_one(height),
        sample_count: 1,
        format,
        usage: TextureUsages {
            copy_destination: false,
            texture_binding: true,
            render_attachment: true,
        },
    }
}

/// The texture that paths are drawn to before they are put on the frame.
pub fn create_path_intermediate(format: TextureFormat, width: u32, height: u32) -> (r:
    TextureDescriptor)
    ensures
        r == path_intermediate(format, width, height),
{
    TextureDescriptor {
        label: "path_intermediate",
        width: if width == 0 { 1 } else { width },
        height: if height == 0 { 1 } else { height },
        sample_count: 1,
        format,
        usage: TextureUsages {
            copy_destination: false,
            texture_binding: true,
            render_attachment: true,
        },
    }
}

/// The texture that several samples per pixel of a path are drawn to, if there
/// are several.
pub open spec fn path_msaa(
    format: TextureFormat,
    width: u32,
    height: u32,
    sample_count: u32,
) -> Option<TextureDescriptor> {
    if sample_count <= 1 {
        None
    } else {
        Some(
            TextureDescriptor {
                label: "path_msaa",
                width: at_least_one(width),
                height: at_least_one(height),
                sample_count,
                format,
                usage: TextureUsages {
                    copy_destination: false,
                    texture_binding: false,
                    render_attachment: true,
                },
            },
        )
    }
}

/// The texture that several samples per pixel of a path are drawn to, if there
/// are several.
pub fn create_msaa_if_needed(
    format: TextureFormat,
    width: u32,
    height: u32,
    sample_count: u32,
) -> (r: Option<TextureDescriptor>)
    ensures
        r == path_msaa(format, width, height, sample_count),
{
    if sample_count <= 1 {
        return None;
    }
    Some(
        TextureDescriptor {
            label: "path_msaa",
            width: if width == 0 { 1 } else { width },
            height: if height == 0 { 1 } else { height },
            sample_count,
            format,
            usage: TextureUsages {
                copy_destination: false,
                texture_binding: false,
                render_attachment: true,
            },
        },
    )
}

/// Whether a pipeline draws from a texture besides its instances.
pub open spec fn draws_from_texture(kind: PipelineKind) -> bool {
    kind is Paths || kind is MonoSprites || kind is SubpixelSprites || kind is PolySprites
}

/// Whether a pipeline is a step of a backdrop blur.
pub open spec fn blurs_backdrop(kind: PipelineKind) -> bool {
    kind is BackdropBlurPass || kind is BackdropComposite
}

/// The fixed state of a pipeline. Only the triangles of paths are a list; only
/// subpixel text leaves the opacity of the frame alone. What is drawn from a
/// texture has one bound, and steps of blurs read their own data. Most of what is
/// drawn to the frame blends as the surface asks for. Paths on their own texture
/// always have colors multiplied by their opacity, and so do those that are put
/// on the frame from there, where opacities add up. Subpixel text blends each
/// color by a factor of its own.
pub proof fn law_pipeline_state(kind: PipelineKind, blend: Blend, path_sample_count: u32)
    ensures
        ({
            let d = described(kind, blend, path_sample_count);
            &&& d.kind == kind
            &&& d.topology is TriangleList <==> kind is PathRasterization
            &&& d.write_mask is Color <==> kind is SubpixelSprites
            &&& d.module is DualSource <==> kind is SubpixelSprites
            &&& d.data_layout is InstancesWithTexture <==> draws_from_texture(kind)
            &&& d.data_layout is Surfaces <==> kind is Surfaces
            &&& d.data_layout is Backdrop <==> blurs_backdrop(kind)
            &&& d.blend is None <==> kind is OpaqueSolidQuads || blurs_backdrop(kind)
            &&& kind is PathRasterization ==> d.blend == Some(Blend::PremultipliedAlpha)
            &&& kind is Paths ==> d.blend == Some(
                Blend::Factors {
                    color_source: BlendFactor::One,
                    color_destination: BlendFactor::OneMinusSrcAlpha,
                    alpha_source: BlendFactor::One,
                    alpha_destination: BlendFactor::One,
                },
            )
            &&& kind is SubpixelSprites ==> d.blend == Some(
                Blend::Factors {
                    color_source: BlendFactor::Src1,
                    color_destination: BlendFactor::OneMinusSrc1,
                    alpha_source: BlendFactor::One,
                    alpha_destination: BlendFactor::OneMinusSrcAlpha,
                },
            )
            &&& !(kind is PathRasterization || kind is Paths || kind is SubpixelSprites || kind
                is OpaqueSolidQuads || blurs_backdrop(kind)) ==> d.blend == Some(blend)
            &&& d.sample_count == if kind is PathRasterization {
                path_sample_count
            } else {
                1
            }
        }),
{
}

/// Surfaces whose colors are multiplied by their opacity are blended into as such,
/// all others by opacity.
pub proof fn law_surface_blend(alpha_mode: CompositeAlphaMode)
    ensures
        surface_blend(alpha_mode) is PremultipliedAlpha <==> alpha_mode is PreMultiplied,
        surface_blend(alpha_mode) is Alpha <==> !(alpha_mode is PreMultiplied),
{
}

/// What tells entry points apart: their lengths, and a letter.
spec fn entry_mark(kind: PipelineKind) -> (int, char) {
    match kind {
        PipelineKind::Quads => (7, 'q'),
        PipelineKind::SolidQuads => (13, 's'),
        PipelineKind::OpaqueSolidQuads => (20, 'o'),
        PipelineKind::Shadows => (9, 's'),
        PipelineKind::PathRasterization => (21, 'p'),
        PipelineKind::Paths => (7, 'p'),
        PipelineKind::Underlines => (12, 'u'),
        PipelineKind::MonoSprites => (14, 'm'),
        PipelineKind::SubpixelSprites => (18, 's'),
        PipelineKind::PolySprites => (14, 'p'),
        PipelineKind::Surfaces => (10, 's'),
        PipelineKind::BackdropBlurPass => (12, 'b'),
        PipelineKind::BackdropComposite => (16, 'b'),
    }
}

/// Shaders come in pairs: the entry points of a pipeline differ in their first
/// letter only, but for the two that draw plain quads, which share the vertices of
/// all quads. No two pipelines share what colors their fragments.
pub proof fn law_shaders_are_paired(
    kind: PipelineKind,
    other: PipelineKind,
    blend: Blend,
    count: u32,
)
    ensures
        ({
            let d = described(kind, blend, count);
            let e = described(other, blend, count);
            let quads = described(PipelineKind::Quads, blend, count);
            let (v, f) = (d.vertex_entry@, d.fragment_entry@);
            &&& v.len() > 3 && f.len() > 3 && v[0] == 'v' && f[0] == 'f'
            &&& !(kind is SolidQuads || kind is OpaqueSolidQuads) ==> v.skip(1) == f.skip(1)
            &&& kind is SolidQuads || kind is OpaqueSolidQuads ==> v == quads.vertex_entry@
            &&& f == e.fragment_entry@ ==> kind == other
        }),
{
    reveal_strlit("vs_quad");
    reveal_strlit("fs_quad");
    reveal_strlit("fs_solid_quad");
    reveal_strlit("fs_opaque_solid_quad");
    reveal_strlit("vs_shadow");
    reveal_strlit("fs_shadow");
    reveal_strlit("vs_path_rasterization");
    reveal_strlit("fs_path_rasterization");
    reveal_strlit("vs_path");
    reveal_strlit("fs_path");
    reveal_strlit("vs_underline");
    reveal_strlit("fs_underline");
    reveal_strlit("vs_mono_sprite");
    reveal_strlit("fs_mono_sprite");
    reveal_strlit("vs_subpixel_sprite");
    reveal_strlit("fs_subpixel_sprite");
    reveal_strlit("vs_poly_sprite");
    reveal_strlit("fs_poly_sprite");
    reveal_strlit("vs_surface");
    reveal_strlit("fs_surface");
    reveal_strlit("vs_blur_pass");
    reveal_strlit("fs_blur_pass");
    reveal_strlit("vs_backdrop_blur");
    reveal_strlit("fs_backdrop_blur");
    let d = described(kind, blend, count);
    let e = described(other, blend, count);
    if !(kind is SolidQuads || kind is OpaqueSolidQuads) {
        assert(d.vertex_entry@.skip(1) =~= d.fragment_entry@.skip(1));
    }
    assert(d.fragment_entry@.len() == entry_mark(kind).0 && d.fragment_entry@[3] == entry_mark(
        kind,
    ).1);
    assert(e.fragment_entry@.len() == entry_mark(other).0 && e.fragment_entry@[3] == entry_mark(
        other,
    ).1);
}

/// What every layout binds: uniforms of the sizes that they have, instances where
/// vertices can read them, and a sampler behind the textures that it samples.
pub proof fn law_layouts_bind_what_is_read()
    ensures
        globals_entries().len() == 2,
        globals_entries()[0].ty == (BindingType::Uniform { min_binding_size: Some(16) }),
        globals_entries()[0].visibility is VertexFragment,
        globals_entries()[1].ty == (BindingType::Uniform { min_binding_size: Some(32) }),
        instances_entries().len() == 1,
        instances_entries()[0].ty is ReadOnlyStorage,
        instances_entries()[0].visibility is VertexFragment,
        instances_with_texture_entries().len() == 3,
        instances_with_texture_entries()[0] == instances_entries()[0],
        instances_with_texture_entries()[1].ty is Texture,
        instances_with_texture_entries()[1].visibility is VertexFragment,
        instances_with_texture_entries()[2].ty is Sampler,
        instances_with_texture_entries()[2].visibility is VertexFragment,
        surfaces_entries().len() == 4,
        surfaces_entries()[0].ty == (BindingType::Uniform { min_binding_size: Some(32) }),
        surfaces_entries()[0].visibility is VertexFragment,
        surfaces_entries()[1].ty is Texture && surfaces_entries()[2].ty is Texture,
        surfaces_entries()[3].ty is Sampler,
        backdrop_entries().len() == 3,
        backdrop_entries()[0].ty == (BindingType::Uniform { min_binding_size: None }),
        backdrop_entries()[0].visibility is VertexFragment,
        backdrop_entries()[1].ty is Texture && backdrop_entries()[2].ty is Sampler,
{
}

/// The texture of paths is as large as asked for, but has at least one pixel. It
/// can be drawn to and drawn from. One with several samples per pixel is there
/// just if there are several; it has the same size and can only be drawn to.
pub proof fn law_path_textures(format: TextureFormat, width: u32, height: u32, count: u32)
    ensures
        ({
            let t = path_intermediate(format, width, height);
            &&& width > 0 ==> t.width == width
            &&& height > 0 ==> t.height == height
            &&& t.width > 0 && t.height > 0
            &&& t.format == format && t.sample_count == 1
            &&& t.usage.render_attachment && t.usage.texture_binding && !t.usage.copy_destination
        }),
        path_msaa(format, width, height, count) is Some <==> count > 1,
        path_msaa(format, width, height, count) matches Some(m) ==> {
            let t = path_intermediate(format, width, height);
            &&& m.width == t.width && m.height == t.height
            &&& m.format == format && m.sample_count == count
            &&& m.usage.render_attachment && !m.usage.texture_binding && !m.usage.copy_destination
        },
{
}

} // verus!
