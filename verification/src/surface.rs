//! How a drawable surface is set up: which of the modes that it offers are used,
//! and at which size.
use crate::float::{one, Float32, Value};
use crate::geometry::{DevicePixels, Size};
use vstd::arithmetic::power2::pow2;
use vstd::prelude::*;

verus! {

/// A pixel format. Formats that are not preferred are told apart by a number of
/// the caller's choice.
#[derive(Clone, Copy, Debug, PartialEq, Eq, Structural)]
pub enum TextureFormat {
    Bgra8Unorm,
    Rgba8Unorm,
    Other { code: u32, srgb: bool },
}

/// How the window system treats the opacity of the drawn pixels.
#[derive(Clone, Copy, Debug, PartialEq, Eq, Structural)]
pub enum CompositeAlphaMode {
    Auto,
    Opaque,
    PreMultiplied,
    PostMultiplied,
    Inherit,
}

/// When finished frames are shown.
#[derive(Clone, Copy, Debug, PartialEq, Eq, Structural)]
pub enum PresentMode {
    AutoVsync,
    AutoNoVsync,
    Fifo,
    FifoRelaxed,
    Immediate,
    Mailbox,
}

/// What an adapter offers for a surface.
#[derive(Debug)]
pub struct SurfaceCapabilities {
    pub formats: Vec<TextureFormat>,
    pub present_modes: Vec<PresentMode>,
    pub alpha_modes: Vec<CompositeAlphaMode>,
    /// Whether the textures of the surface can be copied from.
    pub copy_source: bool,
}

/// What the owner of a window asks for.
#[derive(Clone, Copy, Debug, PartialEq, Eq, Structural)]
pub struct WgpuSurfaceConfig {
    pub size: Size<DevicePixels>,
    pub transparent: bool,
    /// Preferred presentation mode. It is used if the surface supports it;
    /// otherwise, and when there is no preference, the mode is `Fifo`.
    ///
    /// Mobile platforms may prefer `Mailbox` to avoid waiting for a texture
    /// while the window goes through changes of its lifecycle.
    pub preferred_present_mode: Option<PresentMode>,
}

/// What a surface is configured with.
#[derive(Clone, Copy, Debug, PartialEq, Eq, Structural)]
pub struct SurfaceConfiguration {
    /// Whether the textures can be copied from, besides being drawn to.
    pub copy_source: bool,
    pub format: TextureFormat,
    pub width: u32,
    pub height: u32,
    pub present_mode: PresentMode,
    pub desired_maximum_frame_latency: u32,
    pub alpha_mode: CompositeAlphaMode,
}

/// Why a surface cannot be drawn to.
#[derive(Clone, Copy, Debug, PartialEq, Eq, Structural)]
pub enum SurfaceError {
    NoTextureFormats,
    NoAlphaModes,
}

impl TextureFormat {
    pub open spec fn srgb(self) -> bool {
        match self {
            TextureFormat::Other { srgb, .. } => srgb,
            _ => false,
        }
    }

    /// Whether values are converted by the sRGB curve.
    pub fn is_srgb(&self) -> (r: bool)
        ensures
            r == self.srgb(),
    {
        match self {
            TextureFormat::Other { srgb, .. } => *srgb,
            _ => false,
        }
    }
}

/// The format to draw in: one of two preferred ones, or else the first that is
/// not sRGB, or else the first.
pub open spec fn preferred_format(formats: Seq<TextureFormat>) -> Option<TextureFormat> {
    if formats.contains(TextureFormat::Bgra8Unorm) {
        Some(TextureFormat::Bgra8Unorm)
    } else if formats.contains(TextureFormat::Rgba8Unorm) {
        Some(TextureFormat::Rgba8Unorm)
    } else {
        match first_linear(formats) {
            Some(format) => Some(format),
            None => if formats.len() > 0 {
                Some(formats[0])
            } else {
                None
            },
        }
    }
}

/// The first format that is not sRGB.
pub open spec fn first_linear(formats: Seq<TextureFormat>) -> Option<TextureFormat>
    decreases formats.len(),
{
    if formats.len() == 0 {
        None
    } else if !formats[0].srgb() {
        Some(formats[0])
    } else {
        first_linear(formats.skip(1))
    }
}

fn has_format(formats: &Vec<TextureFormat>, format: TextureFormat) -> (r: bool)
    ensures
        r == formats@.contains(format),
{
    for i in 0..formats.len()
        invariant
            forall|j: int| 0 <= j < i ==> formats@[j] != format,
    {
        if formats[i] == format {
            assert(formats@[i as int] == format);
            return true;
        }
    }
    false
}

fn find_linear(formats: &Vec<TextureFormat>) -> (r: Option<TextureFormat>)
    ensures
        r == first_linear(formats@),
{
    assert(formats@.skip(0) == formats@);
    for i in 0..formats.len()
        invariant
            first_linear(formats@) == first_linear(formats@.skip(i as int)),
    {
        if !formats[i].is_srgb() {
            return Some(formats[i]);
        }
        assert(formats@.skip(i as int).skip(1) == formats@.skip(i + 1));
    }
    None
}

/// The format to draw in.
pub fn choose_format(formats: &Vec<TextureFormat>) -> (r: Result<TextureFormat, SurfaceError>)
    ensures
        r == match preferred_format(formats@) {
            Some(format) => Ok(format),
            None => Err(SurfaceError::NoTextureFormats),
        },
{
    if has_format(formats, TextureFormat::Bgra8Unorm) {
        return Ok(TextureFormat::Bgra8Unorm);
    }
    if has_format(formats, TextureFormat::Rgba8Unorm) {
        return Ok(TextureFormat::Rgba8Unorm);
    }
    match find_linear(formats) {
        Some(format) => Ok(format),
        None => if formats.len() > 0 {
            Ok(formats[0])
        } else {
            Err(SurfaceError::NoTextureFormats)
        },
    }
}

/// A format is found exactly when there is one. It is one of those offered, and
/// it is sRGB only if all of them are.
pub proof fn law_format_is_offered(formats: Seq<TextureFormat>)
    ensures
        preferred_format(formats) is None <==> formats.len() == 0,
        preferred_format(formats) is Some ==> formats.contains(preferred_format(formats)->0),
        preferred_format(formats) is Some && preferred_format(formats)->0.srgb() ==> forall|i: int|
            0 <= i < formats.len() ==> (#[trigger] formats[i]).srgb(),
{
    lemma_first_linear(formats);
    if formats.len() > 0 {
        assert(formats.contains(formats[0]));
    }
}

proof fn lemma_first_linear(formats: Seq<TextureFormat>)
    ensures
        first_linear(formats) is Some ==> formats.contains(first_linear(formats)->0)
            && !first_linear(formats)->0.srgb(),
        first_linear(formats) is None ==> forall|i: int|
            0 <= i < formats.len() ==> (#[trigger] formats[i]).srgb(),
    decreases formats.len(),
{
    if formats.len() > 0 && formats[0].srgb() {
        let rest = formats.skip(1);
        lemma_first_linear(rest);
        if first_linear(rest) is Some {
            let i = choose|i: int| 0 <= i < rest.len() && rest[i] == first_linear(rest)->0;
            assert(formats[i + 1] == first_linear(rest)->0);
        } else {
            assert forall|i: int| 0 <= i < formats.len() implies (#[trigger] formats[i]).srgb() by {
                if i > 0 {
                    assert(rest[i - 1] == formats[i]);
                }
            }
        }
    } else if formats.len() > 0 {
        assert(formats.contains(formats[0]));
    }
}

/// The alpha mode to use: the first of two preferences that is offered, or else
/// the first that is offered.
pub open spec fn preferred_alpha_mode(
    offered: Seq<CompositeAlphaMode>,
    first: CompositeAlphaMode,
    second: CompositeAlphaMode,
) -> Option<CompositeAlphaMode> {
    if offered.contains(first) {
        Some(first)
    } else if offered.contains(second) {
        Some(second)
    } else if offered.len() > 0 {
        Some(offered[0])
    } else {
        None
    }
}

/// The alpha mode of transparent windows.
pub open spec fn transparent_mode(offered: Seq<CompositeAlphaMode>) -> Option<CompositeAlphaMode> {
    preferred_alpha_mode(offered, CompositeAlphaMode::PreMultiplied, CompositeAlphaMode::Inherit)
}

/// The alpha mode of opaque windows.
pub open spec fn opaque_mode(offered: Seq<CompositeAlphaMode>) -> Option<CompositeAlphaMode> {
    preferred_alpha_mode(offered, CompositeAlphaMode::Opaque, CompositeAlphaMode::Inherit)
}

fn has_alpha_mode(offered: &Vec<CompositeAlphaMode>, mode: CompositeAlphaMode) -> (r: bool)
    ensures
        r == offered@.contains(mode),
{
    for i in 0..offered.len()
        invariant
            forall|j: int| 0 <= j < i ==> offered@[j] != mode,
    {
        if offered[i] == mode {
            assert(offered@[i as int] == mode);
            return true;
        }
    }
    false
}

/// The alpha mode to use: the first of two preferences that is offered, or else
/// the first that is offered.
pub fn pick_alpha_mode(
    offered: &Vec<CompositeAlphaMode>,
    first: CompositeAlphaMode,
    second: CompositeAlphaMode,
) -> (r: Result<CompositeAlphaMode, SurfaceError>)
    ensures
        r == match preferred_alpha_mode(offered@, first, second) {
            Some(mode) => Ok(mode),
            None => Err(SurfaceError::NoAlphaModes),
        },
{
    if has_alpha_mode(offered, first) {
        Ok(first)
    } else if has_alpha_mode(offered, second) {
        Ok(second)
    } else if offered.len() > 0 {
        Ok(offered[0])
    } else {
        Err(SurfaceError::NoAlphaModes)
    }
}

/// The preferred presentation mode if it is offered, or else `Fifo`.
pub open spec fn chosen_present_mode(
    preferred: Option<PresentMode>,
    offered: Seq<PresentMode>,
) -> PresentMode {
    match preferred {
        Some(mode) => if offered.contains(mode) {
            mode
        } else {
            PresentMode::Fifo
        },
        None => PresentMode::Fifo,
    }
}

/// The preferred presentation mode if it is offered, or else `Fifo`.
pub fn choose_present_mode(preferred: Option<PresentMode>, offered: &Vec<PresentMode>) -> (r:
    PresentMode)
    ensures
        r == chosen_present_mode(preferred, offered@),
{
    match preferred {
        None => PresentMode::Fifo,
        Some(mode) => {
            for i in 0..offered.len()
                invariant
                    preferred == Some(mode),
                    forall|j: int| 0 <= j < i ==> offered@[j] != mode,
            {
                if offered[i] == mode {
                    assert(offered@[i as int] == mode);
                    return mode;
                }
            }
            PresentMode::Fifo
        },
    }
}

/// A length of a surface, brought to at least one pixel and, if possible, to at
/// most the size of the largest texture.
pub open spec fn clamped_length(requested: u32, limit: u32) -> u32 {
    if requested == 0 || limit == 0 {
        1
    } else if requested > limit {
        limit
    } else {
        requested
    }
}

/// A length of a surface, brought to at least one pixel and, if possible, to at
/// most the size of the largest texture.
pub fn clamp_length(requested: u32, limit: u32) -> (r: u32)
    ensures
        r == clamped_length(requested, limit),
{
    let r: u32 = if requested > limit {
        limit
    } else {
        requested
    };
    if r == 0 {
        1
    } else {
        r
    }
}

/// Whether a requested size is larger than the largest texture.
pub open spec fn exceeds(width: u32, height: u32, limit: u32) -> bool {
    width > limit || height > limit
}

/// The kind of device behind an adapter.
#[derive(Clone, Copy, Debug, PartialEq, Eq, Structural)]
pub enum DeviceType {
    Other,
    IntegratedGpu,
    DiscreteGpu,
    VirtualGpu,
    Cpu,
}

/// What an adapter says of itself.
#[derive(Debug)]
pub struct AdapterInfo {
    pub device_type: DeviceType,
    pub name: String,
    pub driver: String,
    pub driver_info: String,
}

/// What is reported of the GPU in use.
#[derive(Debug)]
pub struct GpuSpecs {
    pub is_software_emulated: bool,
    pub device_name: String,
    pub driver_name: String,
    pub driver_info: String,
}

/// How paths and text are rendered.
#[derive(Clone, Copy, Debug)]
pub struct RenderingParameters {
    pub path_sample_count: u32,
    pub gamma_ratios: [Float32; 4],
    pub grayscale_enhanced_contrast: Float32,
    pub subpixel_enhanced_contrast: Float32,
}

/// The number of samples per pixel of a path: four if that is supported, or else
/// two, or else one.
pub open spec fn best_sample_count(supported: Seq<u32>) -> u32 {
    if supported.contains(4) {
        4
    } else if supported.contains(2) {
        2
    } else {
        1
    }
}

fn has_count(supported: &Vec<u32>, count: u32) -> (r: bool)
    ensures
        r == supported@.contains(count),
{
    for i in 0..supported.len()
        invariant
            forall|j: int| 0 <= j < i ==> supported@[j] != count,
    {
        if supported[i] == count {
            assert(supported@[i as int] == count);
            return true;
        }
    }
    false
}

/// A setting, or else its default.
pub open spec fn setting_or(setting: Option<Float32>, default_bits: u32) -> Float32 {
    match setting {
        Some(value) => value,
        None => Float32 { bits: default_bits },
    }
}

/// The gamma of text for a setting.
pub open spec fn gamma_value(setting: Option<Float32>) -> Value {
    setting_or(setting, 0x3fe6_6666)@.clamped(
        Value::whole(false, 1),
        (Float32 { bits: 0x400c_cccd })@,
    )
}

/// The contrast of grayscale text for a setting.
pub open spec fn grayscale_value(setting: Option<Float32>) -> Float32 {
    setting_or(setting, 0x3f80_0000).maximum(Float32 { bits: 0 })
}

/// The contrast of subpixel text for a setting.
pub open spec fn subpixel_value(setting: Option<Float32>) -> Float32 {
    setting_or(setting, 0x3f00_0000).maximum(Float32 { bits: 0 })
}

/// The gamma of text is the setting if that is between 1 and 2.2, the nearer of
/// these limits if it is not, and 1.8 without a setting. Limits and defaults are
/// given to single precision.
pub proof fn law_gamma_is_limited(setting: Float32)
    requires
        setting@ is Finite,
    ensures
        ({
            let g = gamma_value(Some(setting));
            let u = one() as int;
            &&& g is Finite
            &&& setting@.units() < u ==> g.units() == u
            &&& u <= setting@.units() && 5 * setting@.units() < 11 * u ==> g == setting@
            &&& 4 * setting@.units() > 9 * u ==> -u <= 0x10_0000 * (5 * g.units() - 11 * u) <= u
        }),
        ({
            let g = gamma_value(None);
            let u = one() as int;
            g is Finite && -u <= 0x10_0000 * (5 * g.units() - 9 * u) <= u
        }),
{
    vstd::arithmetic::power2::lemma2_to64();
    crate::float::lemma_pow2_add(22, 127);
    crate::float::lemma_pow2_add(23, 126);
    vstd::arithmetic::power2::lemma_pow2_pos(126);
    vstd::arithmetic::power2::lemma_pow2_pos(127);
    assert(1 * one() == one());
    let high = Float32 { bits: 0x400c_cccd };
    let usual = Float32 { bits: 0x3fe6_6666 };
    assert(high@ == (Value::Finite { negative: false, magnitude: 0x8c_cccd * pow2(127) }));
    assert(usual@ == (Value::Finite { negative: false, magnitude: 0xe6_6666 * pow2(126) }));
    vstd::arithmetic::power2::lemma_pow2_unfold(127);
}

/// The contrasts of text are the settings unless these are negative, and one and
/// one half without settings.
pub proof fn law_contrasts_are_limited(setting: Float32)
    requires
        setting@ is Finite,
    ensures
        setting@.units() >= 0 ==> grayscale_value(Some(setting)) == setting,
        setting@.units() >= 0 ==> subpixel_value(Some(setting)) == setting,
        setting@.units() < 0 ==> grayscale_value(Some(setting)).bits == 0,
        setting@.units() < 0 ==> subpixel_value(Some(setting)).bits == 0,
        grayscale_value(None)@ is Finite && grayscale_value(None)@.units() == one(),
        subpixel_value(None)@ is Finite && 2 * subpixel_value(None)@.units() == one(),
{
    vstd::arithmetic::power2::lemma2_to64();
    crate::float::lemma_pow2_add(23, 126);
    crate::float::lemma_pow2_add(24, 125);
    assert((Float32 { bits: 0 })@.units() == 0);
    vstd::arithmetic::power2::lemma_pow2_pos(125);
    vstd::arithmetic::power2::lemma_pow2_pos(126);
}

/// The gamma of text: the setting, or else 1.8, kept between 1 and 2.2.
pub fn font_gamma(setting: Option<Float32>) -> (r: Float32)
    ensures
        r@ == gamma_value(setting),
        r@ == setting_or(setting, 0x3fe6_6666)@.clamped(
            Value::whole(false, 1),
            (Float32 { bits: 0x400c_cccd })@,
        ),
{
    let gamma = match setting {
        Some(value) => value,
        None => Float32::from_bits(0x3fe6_6666),
    };
    let low = Float32::whole(1);
    let high = Float32::from_bits(0x400c_cccd);
    proof {
        vstd::arithmetic::power2::lemma2_to64();
        crate::float::lemma_pow2_add(22, 127);
        assert(high@ == (Value::Finite { negative: false, magnitude: 0x8c_cccd * pow2(127) }));
        assert(1 * one() == pow2(22 + 127));
        assert(low@ == (Value::Finite { negative: false, magnitude: 0x40_0000 * pow2(127) }));
        assert(0x8c_cccd * pow2(127) >= 0x40_0000 * pow2(127)) by (nonlinear_arith);
    }
    gamma.clamped(low, high)
}

impl RenderingParameters {
    /// The parameters for an adapter that supports these numbers of samples,
    /// with the gamma ratios that belong to [`font_gamma`] and the settings for
    /// the contrast of text. Contrasts default to 1 and 0.5 and are not
    /// negative.
    pub fn new(
        supported: &Vec<u32>,
        gamma_ratios: [Float32; 4],
        grayscale_contrast: Option<Float32>,
        subpixel_contrast: Option<Float32>,
    ) -> (r: RenderingParameters)
        ensures
            r.path_sample_count == best_sample_count(supported@),
            r.gamma_ratios == gamma_ratios,
            r.grayscale_enhanced_contrast == grayscale_value(grayscale_contrast),
            r.subpixel_enhanced_contrast == subpixel_value(subpixel_contrast),
            r.grayscale_enhanced_contrast == setting_or(grayscale_contrast, 0x3f80_0000).maximum(
                Float32 { bits: 0 },
            ),
            r.subpixel_enhanced_contrast == setting_or(subpixel_contrast, 0x3f00_0000).maximum(
                Float32 { bits: 0 },
            ),
    {
        let path_sample_count: u32 = if has_count(supported, 4) {
            4
        } else if has_count(supported, 2) {
            2
        } else {
            1
        };
        let grayscale = match grayscale_contrast {
            Some(value) => value,
            None => Float32::from_bits(0x3f80_0000),
        };
        let subpixel = match subpixel_contrast {
            Some(value) => value,
            None => Float32::from_bits(0x3f00_0000),
        };
        RenderingParameters {
            path_sample_count,
            gamma_ratios,
            grayscale_enhanced_contrast: grayscale.larger(Float32::zero()),
            subpixel_enhanced_contrast: subpixel.larger(Float32::zero()),
        }
    }
}

/// Two formats come before all others, in this order. Without them the first
/// format that is not sRGB is used, and without such a one the first of all.
pub proof fn law_format_preferences(formats: Seq<TextureFormat>, i: int)
    requires
        0 <= i < formats.len(),
    ensures
        formats[i] is Bgra8Unorm ==> preferred_format(formats) == Some(formats[i]),
        formats[i] is Rgba8Unorm && !formats.contains(TextureFormat::Bgra8Unorm)
            ==> preferred_format(formats) == Some(formats[i]),
        !formats.contains(TextureFormat::Bgra8Unorm) && !formats.contains(
            TextureFormat::Rgba8Unorm,
        ) && !formats[i].srgb() && (forall|j: int| 0 <= j < i ==> (#[trigger] formats[j]).srgb())
            ==> preferred_format(formats) == Some(formats[i]),
        (forall|j: int| 0 <= j < formats.len() ==> (#[trigger] formats[j]).srgb())
            ==> preferred_format(formats) == Some(formats[0]),
        (formats[i] matches TextureFormat::Other { srgb, .. } ==> formats[i].srgb() == srgb),
        !(formats[i] is Other) ==> !formats[i].srgb(),
{
    assert(formats.contains(formats[i]));
    if !formats[i].srgb() && (forall|j: int| 0 <= j < i ==> (#[trigger] formats[j]).srgb()) {
        lemma_first_at(formats, i);
    }
    lemma_first_linear(formats);
}

proof fn lemma_first_at(formats: Seq<TextureFormat>, i: int)
    requires
        0 <= i < formats.len(),
        !formats[i].srgb(),
        forall|j: int| 0 <= j < i ==> (#[trigger] formats[j]).srgb(),
    ensures
        first_linear(formats) == Some(formats[i]),
    decreases i,
{
    if i > 0 {
        let rest = formats.skip(1);
        assert(formats[0].srgb());
        assert forall|j: int| 0 <= j < i - 1 implies (#[trigger] rest[j]).srgb() by {
            assert(rest[j] == formats[j + 1]);
        }
        assert(rest[i - 1] == formats[i]);
        lemma_first_at(rest, i - 1);
    }
}

/// Transparent windows have colors multiplied by their opacity if that is
/// offered, and opaque ones no opacity. Otherwise both inherit a mode if that is
/// offered, and take the first that is offered if not. There is a mode exactly if
/// any is offered, and it is one of those.
pub proof fn law_alpha_modes(offered: Seq<CompositeAlphaMode>)
    ensures
        offered.contains(CompositeAlphaMode::PreMultiplied) ==> transparent_mode(offered) == Some(
            CompositeAlphaMode::PreMultiplied,
        ),
        offered.contains(CompositeAlphaMode::Opaque) ==> opaque_mode(offered) == Some(
            CompositeAlphaMode::Opaque,
        ),
        offered.contains(CompositeAlphaMode::Inherit) ==> {
            &&& !offered.contains(CompositeAlphaMode::PreMultiplied) ==> transparent_mode(offered)
                == Some(CompositeAlphaMode::Inherit)
            &&& !offered.contains(CompositeAlphaMode::Opaque) ==> opaque_mode(offered) == Some(
                CompositeAlphaMode::Inherit,
            )
        },
        offered.len() > 0 && !offered.contains(CompositeAlphaMode::Inherit) ==> {
            &&& !offered.contains(CompositeAlphaMode::PreMultiplied) ==> transparent_mode(offered)
                == Some(offered[0])
            &&& !offered.contains(CompositeAlphaMode::Opaque) ==> opaque_mode(offered) == Some(
                offered[0],
            )
        },
        offered.len() == 0 <==> transparent_mode(offered) is None,
        offered.len() == 0 <==> opaque_mode(offered) is None,
        offered.len() > 0 ==> offered.contains(transparent_mode(offered)->0) && offered.contains(
            opaque_mode(offered)->0,
        ),
{
    if offered.len() > 0 {
        assert(offered.contains(offered[0]));
    }
}

/// The first preference wins if it is offered, then the second, then whatever is
/// offered first.
pub proof fn law_alpha_preferences(
    offered: Seq<CompositeAlphaMode>,
    first: CompositeAlphaMode,
    second: CompositeAlphaMode,
)
    ensures
        offered.contains(first) ==> preferred_alpha_mode(offered, first, second) == Some(first),
        !offered.contains(first) && offered.contains(second) ==> preferred_alpha_mode(
            offered,
            first,
            second,
        ) == Some(second),
        !offered.contains(first) && !offered.contains(second) && offered.len() > 0
            ==> preferred_alpha_mode(offered, first, second) == Some(offered[0]),
        offered.len() == 0 ==> preferred_alpha_mode(offered, first, second) is None,
{
}

/// The presentation mode is the preferred one or `Fifo`: the former exactly if it
/// is offered.
pub proof fn law_present_modes(mode: PresentMode, offered: Seq<PresentMode>)
    ensures
        offered.contains(mode) ==> chosen_present_mode(Some(mode), offered) == mode,
        !offered.contains(mode) ==> chosen_present_mode(Some(mode), offered) is Fifo,
        chosen_present_mode(None, offered) is Fifo,
{
}

/// A length is at least one pixel and not above the limit. It is the one that is
/// asked for if that is possible, and does not shrink if more is asked for.
pub proof fn law_lengths_are_clamped(requested: u32, other: u32, limit: u32)
    ensures
        clamped_length(requested, limit) >= 1,
        limit > 0 ==> clamped_length(requested, limit) <= limit,
        1 <= requested <= limit ==> clamped_length(requested, limit) == requested,
        requested <= other ==> clamped_length(requested, limit) <= clamped_length(other, limit),
        requested > limit && limit > 0 ==> clamped_length(requested, limit) == limit,
{
}

/// Paths are drawn with the largest of four, two and one samples per pixel that is
/// supported; one is always possible.
pub proof fn law_sample_counts(supported: Seq<u32>, count: u32)
    ensures
        best_sample_count(supported) == 1 || supported.contains(best_sample_count(supported)),
        best_sample_count(supported) == 1 || best_sample_count(supported) == 2
            || best_sample_count(supported) == 4,
        (count == 2 || count == 4) && supported.contains(count) ==> count <= best_sample_count(
            supported,
        ),
{
}

/// A size exceeds what textures allow exactly if it is not reached.
pub proof fn law_excess_is_clamped(width: u32, height: u32, limit: u32)
    requires
        width > 0,
        height > 0,
        limit > 0,
    ensures
        exceeds(width, height, limit) <==> clamped_length(width, limit) != width || clamped_length(
            height,
            limit,
        ) != height,
{
}

} // verus!
