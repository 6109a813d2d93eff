//! Blurring what is behind a region: which part of the frame is copied, into
//! which textures, and what the passes over them are told.
use crate::blur_kernel::{
    blur_regions, gaussian_weights, horizontal_extent, kernel_exponent, kernel_radius,
    precomputed_radius, vertical_extent, MAX_KERNEL_RADIUS,
};
use crate::blur_kernel;
use crate::float::{Float32, Value};
use crate::geometry::{Bounds, ScaledPixels};
use crate::pipelines::{TextureDescriptor, TextureUsages};
use crate::scene::BackdropBlur;
use crate::surface::TextureFormat;
use crate::uniforms::{
    align_up, lemma_align_up, BackdropBlurUniform, BlurPassUniform, BACKDROP_SIZE, BLUR_PASS_SIZE,
};
use vstd::prelude::*;

verus! {

/// Sizes of scratch textures are rounded up to multiples of this, so that regions
/// whose sizes differ slightly share one allocation.
pub const SCRATCH_QUANTUM: u32 = 256;

/// The textures of a blur: a copy of a part of the frame, and two downsampled
/// products of the same size.
#[derive(Clone, Copy, Debug, PartialEq, Eq, Structural)]
pub struct BackdropScratch {
    pub width: u32,
    pub height: u32,
    pub downsample: u32,
    pub blur_width: u32,
    pub blur_height: u32,
}

/// The length of a scratch texture for a region of `needed` pixels.
pub open spec fn scratch_length(needed: u32, drawable: u32) -> u32 {
    let rounded = align_up(needed as int, SCRATCH_QUANTUM as int);
    let fitting = if rounded > drawable {
        drawable as int
    } else {
        rounded
    };
    if fitting < 1 {
        1
    } else {
        fitting as u32
    }
}

/// The smallest number of texels that hold `n` pixels, `downsample` in each.
pub open spec fn texel_count(n: u32, downsample: u32) -> u32 {
    ((n + downsample - 1) / (downsample as int)) as u32
}

impl BackdropScratch {
    /// New textures for a region of this size.
    pub open spec fn sized(
        needed_width: u32,
        needed_height: u32,
        downsample: u32,
        drawable_width: u32,
        drawable_height: u32,
    ) -> BackdropScratch {
        let width = scratch_length(needed_width, drawable_width);
        let height = scratch_length(needed_height, drawable_height);
        BackdropScratch {
            width,
            height,
            downsample,
            blur_width: texel_count(width, downsample),
            blur_height: texel_count(height, downsample),
        }
    }

    /// Whether the textures can serve a region of this size: they hold it, and
    /// the frame fills them.
    pub open spec fn reusable(
        self,
        needed_width: u32,
        needed_height: u32,
        downsample: u32,
        drawable_width: u32,
        drawable_height: u32,
    ) -> bool {
        &&& self.downsample == downsample
        &&& needed_width <= self.width <= drawable_width
        &&& needed_height <= self.height <= drawable_height
    }

    /// The products have a texel for every `downsample` pixels of the copy.
    pub open spec fn valid(self) -> bool {
        &&& self.width > 0
        &&& self.height > 0
        &&& self.downsample > 0
        &&& self.blur_width == texel_count(self.width, self.downsample)
        &&& self.blur_height == texel_count(self.height, self.downsample)
    }
}

/// The textures for a region of this size: those at hand if they will do, or
/// else new ones.
pub open spec fn ensured_scratch(
    current: Option<BackdropScratch>,
    needed_width: u32,
    needed_height: u32,
    downsample: u32,
    drawable_width: u32,
    drawable_height: u32,
) -> BackdropScratch {
    if current is Some && current->0.reusable(
        needed_width,
        needed_height,
        downsample,
        drawable_width,
        drawable_height,
    ) {
        current->0
    } else {
        BackdropScratch::sized(
            needed_width,
            needed_height,
            downsample,
            drawable_width,
            drawable_height,
        )
    }
}

fn scratch_side(needed: u32, drawable: u32) -> (r: u32)
    ensures
        r == scratch_length(needed, drawable),
        r >= 1,
{
    proof {
        lemma_align_up(needed as int, 256);
    }
    let rounded: u64 = crate::uniforms::next_multiple(needed as u64, 256);
    let fitting: u64 = if rounded > drawable as u64 {
        drawable as u64
    } else {
        rounded
    };
    if fitting < 1 {
        1
    } else {
        fitting as u32
    }
}

fn count_texels(n: u32, downsample: u32) -> (r: u32)
    requires
        n > 0,
        downsample > 0,
    ensures
        r == texel_count(n, downsample),
        1 <= r <= n,
{
    let sum: u64 = n as u64 + (downsample as u64 - 1);
    let r: u64 = sum / (downsample as u64);
    proof {
        lemma_texel_count(n, downsample);
    }
    r as u32
}

proof fn lemma_texel_count(n: u32, downsample: u32)
    requires
        n > 0,
        downsample > 0,
    ensures
        1 <= (n + downsample - 1) / (downsample as int) <= n,
{
    let d = downsample as int;
    let s = n + d - 1;
    vstd::arithmetic::div_mod::lemma_fundamental_div_mod(s, d);
    let q = s / d;
    assert(1 <= q) by (nonlinear_arith)
        requires
            s == d * q + s % d,
            s % d < d,
            s >= d,
            d > 0,
    ;
    assert(q <= n) by (nonlinear_arith)
        requires
            s == d * q + s % d,
            s % d >= 0,
            s == n + d - 1,
            n >= 1,
            d > 0,
    ;
}

/// The textures for a region of this size, and whether they have to be created.
/// Those at hand are kept as long as they hold the region and still fit inside
/// the drawable: the copy always fills them whole.
pub fn ensure_backdrop_scratch(
    current: Option<BackdropScratch>,
    needed_width: u32,
    needed_height: u32,
    downsample: u32,
    drawable_width: u32,
    drawable_height: u32,
) -> (r: (BackdropScratch, bool))
    requires
        downsample > 0,
    ensures
        r.0 == ensured_scratch(
            current,
            needed_width,
            needed_height,
            downsample,
            drawable_width,
            drawable_height,
        ),
        r.1 == !(current is Some && current->0.reusable(
            needed_width,
            needed_height,
            downsample,
            drawable_width,
            drawable_height,
        )),
        (current is Some ==> current->0.valid()) ==> r.0.valid(),
{
    if let Some(scratch) = current {
        if scratch.downsample == downsample && scratch.width >= needed_width && scratch.width
            <= drawable_width && scratch.height >= needed_height && scratch.height
            <= drawable_height {
            return (scratch, false);
        }
    }
    let width: u32 = scratch_side(needed_width, drawable_width);
    let height: u32 = scratch_side(needed_height, drawable_height);
    let blur_width: u32 = count_texels(width, downsample);
    let blur_height: u32 = count_texels(height, downsample);
    (BackdropScratch { width, height, downsample, blur_width, blur_height }, true)
}

fn describe_texture(
    label: &'static str,
    width: u32,
    height: u32,
    format: TextureFormat,
    copy_destination: bool,
) -> (r: TextureDescriptor)
    ensures
        r == scratch_texture(label, width, height, format, copy_destination),
{
    TextureDescriptor {
        label,
        width,
        height,
        sample_count: 1,
        format,
        usage: TextureUsages {
            copy_destination,
            texture_binding: true,
            render_attachment: !copy_destination,
        },
    }
}

/// A texture that is read from, and is either copied or drawn to.
pub open spec fn scratch_texture(
    label: &'static str,
    width: u32,
    height: u32,
    format: TextureFormat,
    copy_destination: bool,
) -> TextureDescriptor {
    TextureDescriptor {
        label,
        width,
        height,
        sample_count: 1,
        format,
        usage: TextureUsages {
            copy_destination,
            texture_binding: true,
            render_attachment: !copy_destination,
        },
    }
}

/// The textures of a blur: the copy of the frame, and both products.
pub open spec fn scratch_descriptors(scratch: BackdropScratch, format: TextureFormat) -> Seq<
    TextureDescriptor,
> {
    let (width, height) = (scratch.blur_width, scratch.blur_height);
    seq![
        scratch_texture("backdrop_snapshot", scratch.width, scratch.height, format, true),
        scratch_texture("backdrop_blur_a", width, height, format, false),
        scratch_texture("backdrop_blur_b", width, height, format, false),
    ]
}

/// The copy of the frame has the size of the part that is copied, and both
/// products have that of the passes. All have the format of the frame, one sample
/// per pixel, and can be drawn from; the copy is copied to, and products are drawn
/// to.
pub proof fn law_scratch_textures(scratch: BackdropScratch, format: TextureFormat, i: int)
    requires
        0 <= i < 3,
    ensures
        scratch_descriptors(scratch, format).len() == 3,
        ({
            let t = scratch_descriptors(scratch, format)[i];
            &&& t.format == format && t.sample_count == 1 && t.usage.texture_binding
            &&& t.usage.copy_destination == (i == 0)
            &&& t.usage.render_attachment == (i > 0)
            &&& i == 0 ==> t.width == scratch.width && t.height == scratch.height
            &&& i > 0 ==> t.width == scratch.blur_width && t.height == scratch.blur_height
        }),
{
}

/// The textures of a blur: the copy of the frame, and what the horizontal and
/// the vertical pass draw to.
pub fn scratch_textures(scratch: &BackdropScratch, format: TextureFormat) -> (r: [TextureDescriptor;
    3])
    ensures
        r@ == scratch_descriptors(*scratch, format),
        r[0] == scratch_texture("backdrop_snapshot", scratch.width, scratch.height, format, true),
        r[1] == scratch_texture(
            "backdrop_blur_a",
            scratch.blur_width,
            scratch.blur_height,
            format,
            false,
        ),
        r[2] == scratch_texture(
            "backdrop_blur_b",
            scratch.blur_width,
            scratch.blur_height,
            format,
            false,
        ),
{
    let (width, height) = (scratch.blur_width, scratch.blur_height);
    let r: [TextureDescriptor; 3] = [
        describe_texture("backdrop_snapshot", scratch.width, scratch.height, format, true),
        describe_texture("backdrop_blur_a", width, height, format, false),
        describe_texture("backdrop_blur_b", width, height, format, false),
    ];
    assert(r@ =~= scratch_descriptors(*scratch, format));
    r
}

/// Whatever textures are used, they hold the region and fit inside the drawable.
pub proof fn law_scratch_holds_region(
    current: Option<BackdropScratch>,
    needed_width: u32,
    needed_height: u32,
    downsample: u32,
    drawable_width: u32,
    drawable_height: u32,
)
    requires
        0 < needed_width <= drawable_width,
        0 < needed_height <= drawable_height,
        downsample > 0,
        current is Some ==> current->0.valid(),
    ensures
        ({
            let scratch = ensured_scratch(
                current,
                needed_width,
                needed_height,
                downsample,
                drawable_width,
                drawable_height,
            );
            &&& scratch.valid()
            &&& scratch.reusable(
                needed_width,
                needed_height,
                downsample,
                drawable_width,
                drawable_height,
            )
            &&& 0 < scratch.blur_width <= scratch.width
            &&& 0 < scratch.blur_height <= scratch.height
        }),
{
    lemma_align_up(needed_width as int, 256);
    lemma_align_up(needed_height as int, 256);
    let scratch = ensured_scratch(
        current,
        needed_width,
        needed_height,
        downsample,
        drawable_width,
        drawable_height,
    );
    lemma_texel_count(scratch.width, downsample);
    lemma_texel_count(scratch.height, downsample);
}


impl BackdropBlur {
    /// The deviation of the blur in pixels: at least one.
    #[verifier::opaque]
    pub open spec fn sigma(self) -> Float32 {
        self.blur_radius.0.maximum(Float32 { bits: 0x3f80_0000 })
    }

    /// How many pixels the blur reaches beyond a visible one: three deviations.
    pub open spec fn reach(self) -> int {
        self.sigma()@.times(Value::whole(false, 3)).ceil_int()
    }

    /// How far beyond a visible pixel the frame is copied: as far as the blur
    /// reaches, with some reserve.
    #[verifier::opaque]
    pub open spec fn padding(self) -> Value {
        self.sigma()@.times(Value::whole(false, 3)).ceiled().plus(Value::whole(false, 2))
    }

    /// What is seen of the blur.
    #[verifier::opaque]
    pub open spec fn visible(self) -> Bounds<ScaledPixels> {
        self.bounds.common_part(self.content_mask.bounds)
    }

    /// How many pixels a texel of the passes spans: one for every eight pixels
    /// of deviation, from one to four.
    #[verifier::opaque]
    pub open spec fn downsample(self) -> u32 {
        let n = self.sigma()@.over(Value::whole(false, 8)).saturated(0, u32::MAX as int);
        if n < 1 {
            1
        } else if n > 4 {
            4
        } else {
            n as u32
        }
    }

    /// The deviation of the blur in texels of the passes.
    #[verifier::opaque]
    pub open spec fn texel_sigma(self) -> Float32 {
        self.sigma().quotient(Float32::of(Value::from_nat(self.downsample() as nat))).maximum(
            Float32 { bits: 0x3f00_0000 },
        )
    }

    /// The visible part with its padding, within the drawable: left, top, right
    /// and bottom.
    #[verifier::opaque]
    pub open spec fn padded_region(self, drawable_width: u32, drawable_height: u32) -> (
        int,
        int,
        int,
        int,
    ) {
        let visible = self.visible();
        let padding = self.padding();
        (
            near_edge(visible.origin.x.0@, padding),
            near_edge(visible.origin.y.0@, padding),
            far_edge(visible.origin.x.0@, visible.size.width.0@, padding, drawable_width),
            far_edge(visible.origin.y.0@, visible.size.height.0@, padding, drawable_height),
        )
    }

    /// Whether there is anything to blur.
    pub open spec fn on_screen(self, drawable_width: u32, drawable_height: u32) -> bool {
        let (x0, y0, x1, y1) = self.padded_region(drawable_width, drawable_height);
        x0 < x1 && y0 < y1
    }
}

/// Where a padded extent starts.
pub open spec fn near_edge(position: Value, padding: Value) -> int {
    let n = position.minus(padding).floored().saturated(i64::MIN as int, i64::MAX as int);
    if n < 0 {
        0
    } else {
        n
    }
}

/// Where a padded extent ends.
pub open spec fn far_edge(position: Value, length: Value, padding: Value, drawable: u32) -> int {
    let n = position.plus(length).plus(padding).ceiled().saturated(
        i64::MIN as int,
        i64::MAX as int,
    );
    if n > drawable {
        drawable as int
    } else {
        n
    }
}

/// Where a copy of `length` pixels starts so that it stays inside the drawable
/// and covers what starts at `start`.
pub open spec fn copy_start(start: int, length: u32, drawable: u32) -> int {
    if start <= drawable - length {
        start
    } else if drawable < length {
        0
    } else {
        drawable - length
    }
}

/// The part of the frame that is copied covers the padded region, stays inside
/// the drawable, and fills the texture whole.
pub proof fn law_copy_covers_region(start: int, end: int, length: u32, drawable: u32)
    requires
        0 <= start < end <= drawable,
        end - start <= length <= drawable,
    ensures
        0 <= copy_start(start, length, drawable) <= start,
        end <= copy_start(start, length, drawable) + length <= drawable,
{
}

/// What happens for one blur: the textures in use, where the copy starts, the
/// words of the three uniforms, and the parts that the passes draw.
pub struct BlurSteps {
    pub scratch: BackdropScratch,
    pub create: bool,
    pub copy_x: int,
    pub copy_y: int,
    pub horizontal_words: Seq<u32>,
    pub vertical_words: Seq<u32>,
    pub composite_words: Seq<u32>,
    pub horizontal_region: Seq<u32>,
    pub vertical_region: Seq<u32>,
}

/// The words of the uniform of one pass.
#[verifier::opaque]
pub open spec fn pass_words(
    horizontal: bool,
    sigma: Float32,
    stride: Float32,
    source_width: u32,
    source_height: u32,
    samples: Seq<Float32>,
) -> Seq<u32> {
    let one = Float32 { bits: 0x3f80_0000 };
    seq![
        if horizontal {
            one.bits
        } else {
            0u32
        },
        if horizontal {
            0u32
        } else {
            one.bits
        },
        sigma.bits,
        stride.bits,
        one.quotient(Float32::of(Value::from_nat(source_width as nat))).bits,
        one.quotient(Float32::of(Value::from_nat(source_height as nat))).bits,
        0u32,
        0u32,
    ] + kernel_words(sigma, samples)
}

/// The words of the weights of a kernel.
pub open spec fn kernel_words(sigma: Float32, samples: Seq<Float32>) -> Seq<u32> {
    Seq::new(
        132,
        |k: int|
            if kernel_radius(sigma) > MAX_KERNEL_RADIUS {
                0u32
            } else {
                blur_kernel::weight(samples, kernel_radius(sigma), k).bits
            },
    )
}

/// The rectangle with these extents along both axes.
pub open spec fn extents(x: (int, int), y: (int, int)) -> Seq<u32> {
    seq![x.0 as u32, y.0 as u32, (x.1 - x.0) as u32, (y.1 - y.0) as u32]
}

/// The part that the horizontal pass draws.
#[verifier::opaque]
pub open spec fn horizontal_rectangle(
    visible: [Float32; 4],
    source: [u32; 4],
    output: [u32; 2],
    sigma: Float32,
) -> Seq<u32> {
    extents(
        horizontal_extent(visible, source, output, sigma, 0),
        horizontal_extent(visible, source, output, sigma, 1),
    )
}

/// The part that the vertical pass draws.
#[verifier::opaque]
pub open spec fn vertical_rectangle(
    visible: [Float32; 4],
    source: [u32; 4],
    output: [u32; 2],
) -> Seq<u32> {
    extents(
        vertical_extent(visible, source, output, 0),
        vertical_extent(visible, source, output, 1),
    )
}

/// The words of the uniform of the composite.
#[verifier::opaque]
pub open spec fn composite_words(
    blur: BackdropBlur,
    copy_x: int,
    copy_y: int,
    scratch: BackdropScratch,
) -> Seq<u32> {
    blur.bounds.words() + blur.corner_radii.words() + blur.content_mask.bounds.words() + seq![
        Float32::of(Value::from_nat(copy_x as nat)).bits,
        Float32::of(Value::from_nat(copy_y as nat)).bits,
        Float32::of(Value::from_nat(scratch.width as nat)).bits,
        Float32::of(Value::from_nat(scratch.height as nat)).bits,
    ]
}

impl BackdropBlur {
    /// What happens for this blur.
    pub open spec fn steps(
        self,
        current: Option<BackdropScratch>,
        drawable_width: u32,
        drawable_height: u32,
        samples: Seq<Float32>,
    ) -> BlurSteps {
        let (x0, y0, x1, y1) = self.padded_region(drawable_width, drawable_height);
        let needed_width = (x1 - x0) as u32;
        let needed_height = (y1 - y0) as u32;
        let downsample = self.downsample();
        let scratch = ensured_scratch(
            current,
            needed_width,
            needed_height,
            downsample,
            drawable_width,
            drawable_height,
        );
        let copy_x = copy_start(x0, scratch.width, drawable_width);
        let copy_y = copy_start(y0, scratch.height, drawable_height);
        let sigma = self.texel_sigma();
        let v = self.visible();
        let visible: [Float32; 4] = [
            v.origin.x.0,
            v.origin.y.0,
            v.size.width.0,
            v.size.height.0,
        ];
        let source: [u32; 4] = [copy_x as u32, copy_y as u32, scratch.width, scratch.height];
        let output: [u32; 2] = [scratch.blur_width, scratch.blur_height];
        BlurSteps {
            scratch,
            create: !(current is Some && current->0.reusable(
                needed_width,
                needed_height,
                downsample,
                drawable_width,
                drawable_height,
            )),
            copy_x,
            copy_y,
            horizontal_words: pass_words(
                true,
                sigma,
                Float32::of(Value::from_nat(downsample as nat)),
                scratch.width,
                scratch.height,
                samples,
            ),
            vertical_words: pass_words(
                false,
                sigma,
                Float32 { bits: 0x3f80_0000 },
                scratch.blur_width,
                scratch.blur_height,
                samples,
            ),
            composite_words: composite_words(self, copy_x, copy_y, scratch),
            horizontal_region: horizontal_rectangle(visible, source, output, sigma),
            vertical_region: vertical_rectangle(visible, source, output),
        }
    }
}

/// What happens for one blur: the textures in use and whether they are new,
/// where the copy of the frame starts, the words of the three uniforms, and the
/// parts that the two passes draw.
pub struct BlurPlan {
    pub scratch: BackdropScratch,
    pub create: bool,
    pub copy_x: u32,
    pub copy_y: u32,
    pub horizontal_words: Vec<u32>,
    pub vertical_words: Vec<u32>,
    pub composite_words: Vec<u32>,
    pub horizontal_region: [u32; 4],
    pub vertical_region: [u32; 4],
}

impl View for BlurPlan {
    type V = BlurSteps;

    open spec fn view(&self) -> BlurSteps {
        BlurSteps {
            scratch: self.scratch,
            create: self.create,
            copy_x: self.copy_x as int,
            copy_y: self.copy_y as int,
            horizontal_words: self.horizontal_words@,
            vertical_words: self.vertical_words@,
            composite_words: self.composite_words@,
            horizontal_region: self.horizontal_region@,
            vertical_region: self.vertical_region@,
        }
    }
}

fn find_near_edge(position: Float32, padding: Float32) -> (r: i64)
    ensures
        r == near_edge(position@, padding@),
{
    let n: i64 = position.minus(padding).floored().to_i64();
    if n < 0 {
        0
    } else {
        n
    }
}

fn find_far_edge(position: Float32, length: Float32, padding: Float32, drawable: u32) -> (r: i64)
    ensures
        r == far_edge(position@, length@, padding@, drawable),
{
    let n: i64 = position.plus(length).plus(padding).ceiled().to_i64();
    if n > drawable as i64 {
        drawable as i64
    } else {
        n
    }
}

fn find_sigma(blur: &BackdropBlur) -> (r: Float32)
    ensures
        r == blur.sigma(),
{
    proof {
        reveal(BackdropBlur::sigma);
    }
    blur.blur_radius.0.larger(Float32::from_bits(0x3f80_0000))
}

/// The visible part with its padding, within the drawable: left, top, right and
/// bottom; nothing if that is empty.
fn find_region(blur: &BackdropBlur, drawable_width: u32, drawable_height: u32) -> (r: Option<
    (u32, u32, u32, u32),
>)
    ensures
        r is Some <==> blur.on_screen(drawable_width, drawable_height),
        r matches Some((left, top, right, bottom)) ==> {
            let (x0, y0, x1, y1) = blur.padded_region(drawable_width, drawable_height);
            &&& left == x0 && top == y0 && right == x1 && bottom == y1
            &&& 0 <= x0 < x1 <= drawable_width
            &&& 0 <= y0 < y1 <= drawable_height
        },
{
    proof {
        reveal(BackdropBlur::padding);
        reveal(BackdropBlur::padded_region);
    }
    let padding = find_sigma(blur).times(Float32::whole(3)).ceiled().plus(Float32::whole(2));
    let visible = find_visible(blur);
    let x0: i64 = find_near_edge(visible.origin.x.0, padding);
    let y0: i64 = find_near_edge(visible.origin.y.0, padding);
    let x1: i64 = find_far_edge(
        visible.origin.x.0,
        visible.size.width.0,
        padding,
        drawable_width,
    );
    let y1: i64 = find_far_edge(
        visible.origin.y.0,
        visible.size.height.0,
        padding,
        drawable_height,
    );
    if x1 <= x0 || y1 <= y0 {
        None
    } else {
        Some((x0 as u32, y0 as u32, x1 as u32, y1 as u32))
    }
}

fn find_downsample(blur: &BackdropBlur) -> (r: u32)
    ensures
        r == blur.downsample(),
        1 <= r <= 4,
{
    proof {
        reveal(BackdropBlur::downsample);
    }
    let n: u32 = find_sigma(blur).over(Float32::whole(8)).to_u32();
    if n < 1 {
        1
    } else if n > 4 {
        4
    } else {
        n
    }
}

fn find_texel_sigma(blur: &BackdropBlur) -> (r: Float32)
    ensures
        r == blur.texel_sigma(),
{
    proof {
        reveal(BackdropBlur::texel_sigma);
    }
    let downsample: u32 = find_downsample(blur);
    find_sigma(blur).over(Float32::from_u32(downsample)).larger(Float32::from_bits(0x3f00_0000))
}

/// The numbers whose exponentials the kernel of a blur is made of.
pub open spec fn blur_exponents(blur: BackdropBlur) -> Seq<Float32> {
    let radius = kernel_radius(blur.texel_sigma());
    Seq::new(
        (if radius > MAX_KERNEL_RADIUS {
            0
        } else {
            radius + 1
        }) as nat,
        |k: int| blur_kernel::exponent(blur.texel_sigma(), k as nat),
    )
}

/// The numbers whose exponentials the kernel of a blur is made of, one for each
/// distance in texels; none if the shader computes the kernel itself.
pub fn kernel_exponents(blur: &BackdropBlur) -> (r: Vec<Float32>)
    ensures
        r@ == blur_exponents(*blur),
        kernel_radius(blur.texel_sigma()) > MAX_KERNEL_RADIUS ==> r.len() == 0,
        kernel_radius(blur.texel_sigma()) <= MAX_KERNEL_RADIUS ==> {
            &&& r.len() == kernel_radius(blur.texel_sigma()) + 1
            &&& forall|k: int|
                0 <= k < r.len() ==> #[trigger] r[k] == blur_kernel::exponent(
                    blur.texel_sigma(),
                    k as nat,
                )
        },
{
    let sigma = find_texel_sigma(blur);
    let mut r: Vec<Float32> = Vec::new();
    if let Some(radius) = precomputed_radius(sigma) {
        let mut k: u32 = 0;
        while k as usize <= radius
            invariant
                radius <= MAX_KERNEL_RADIUS,
                sigma == blur.texel_sigma(),
                k == r.len(),
                k <= radius + 1,
                forall|j: int|
                    0 <= j < r.len() ==> #[trigger] r[j] == blur_kernel::exponent(
                        blur.texel_sigma(),
                        j as nat,
                    ),
            decreases radius + 1 - k,
        {
            r.push(kernel_exponent(sigma, k));
            k = k + 1;
        }
    }
    assert(r@ =~= blur_exponents(*blur));
    r
}

fn find_copy_start(start: u32, length: u32, drawable: u32) -> (r: u32)
    ensures
        r == copy_start(start as int, length, drawable),
{
    if drawable < length {
        0
    } else if start <= drawable - length {
        start
    } else {
        drawable - length
    }
}

/// The uniform of one pass.
fn pass_uniform(
    horizontal: bool,
    sigma: Float32,
    stride: Float32,
    source_width: u32,
    source_height: u32,
    samples: &Vec<Float32>,
) -> (r: Vec<u32>)
    requires
        kernel_radius(sigma) <= MAX_KERNEL_RADIUS ==> samples.len() > kernel_radius(sigma),
    ensures
        r@ == pass_words(horizontal, sigma, stride, source_width, source_height, samples@),
{
    let zero = Float32::from_bits(0);
    let one = Float32::from_bits(0x3f80_0000);
    let weights = gaussian_weights(sigma, samples);
    let uniform = BlurPassUniform {
        direction: if horizontal {
            [one, zero]
        } else {
            [zero, one]
        },
        sigma,
        stride,
        source_texel_size: [
            one.over(Float32::from_u32(source_width)),
            one.over(Float32::from_u32(source_height)),
        ],
        weights,
    };
    proof {
        let words = crate::uniforms::weight_words(weights);
        let expected = kernel_words(sigma, samples@);
        assert forall|k: int| 0 <= k < 132 implies words[k] == expected[k] by {
            assert(4 * (k / 4) + k % 4 == k);
            assert(words[k] == weights[k / 4][k % 4].bits);
        }
        assert(words =~= expected);
        reveal(pass_words);
        assert(uniform.words() =~= pass_words(
            horizontal,
            sigma,
            stride,
            source_width,
            source_height,
            samples@,
        ));
    }
    uniform.to_words()
}

fn find_visible(blur: &BackdropBlur) -> (r: Bounds<ScaledPixels>)
    ensures
        r == blur.visible(),
{
    proof {
        reveal(BackdropBlur::visible);
    }
    blur.bounds.intersect(&blur.content_mask.bounds)
}

fn find_rectangles(
    visible: [Float32; 4],
    source: [u32; 4],
    output: [u32; 2],
    sigma: Float32,
) -> (r: ([u32; 4], [u32; 4]))
    ensures
        r.0@ == horizontal_rectangle(visible, source, output, sigma),
        r.1@ == vertical_rectangle(visible, source, output),
{
    let r: ([u32; 4], [u32; 4]) = blur_regions(visible, source, output, sigma);
    proof {
        reveal(horizontal_rectangle);
        reveal(vertical_rectangle);
        let hx = horizontal_extent(visible, source, output, sigma, 0);
        let hy = horizontal_extent(visible, source, output, sigma, 1);
        let vx = vertical_extent(visible, source, output, 0);
        let vy = vertical_extent(visible, source, output, 1);
        assert(r.0[0] == hx.0 && r.0[0] + r.0[0 + 2int] == hx.1);
        assert(r.0[1] == hy.0 && r.0[1] + r.0[1 + 2int] == hy.1);
        assert(r.1[0] == vx.0 && r.1[0] + r.1[0 + 2int] == vx.1);
        assert(r.1[1] == vy.0 && r.1[1] + r.1[1 + 2int] == vy.1);
        assert(r.0@ =~= horizontal_rectangle(visible, source, output, sigma));
        assert(r.1@ =~= vertical_rectangle(visible, source, output));
    }
    r
}

fn composite_uniform(
    blur: &BackdropBlur,
    copy_x: u32,
    copy_y: u32,
    scratch: BackdropScratch,
) -> (r: Vec<u32>)
    ensures
        r@ == composite_words(*blur, copy_x as int, copy_y as int, scratch),
{
    let composite = BackdropBlurUniform {
        bounds: blur.bounds,
        corner_radii: blur.corner_radii,
        clip_bounds: blur.content_mask.bounds,
        source_rect: [
            Float32::from_u32(copy_x),
            Float32::from_u32(copy_y),
            Float32::from_u32(scratch.width),
            Float32::from_u32(scratch.height),
        ],
    };
    proof {
        reveal(composite_words);
    }
    composite.to_words()
}

/// Prepares a blur: the part of the frame to copy, the textures to use, the two
/// separable passes and the composite. Nothing if the blur is fully clipped or
/// off screen; the composite is then skipped too.
///
/// The blur only samples its visible bounds, and reaches about three deviations
/// beyond a sampled pixel, so only that padded region is copied instead of the
/// whole drawable. `samples` holds the exponentials of [`kernel_exponents`].
pub fn process_backdrop_blur(
    blur: &BackdropBlur,
    current: Option<BackdropScratch>,
    drawable_width: u32,
    drawable_height: u32,
    samples: &Vec<Float32>,
) -> (r: Option<BlurPlan>)
    requires
        kernel_radius(blur.texel_sigma()) <= MAX_KERNEL_RADIUS ==> samples.len() > kernel_radius(
            blur.texel_sigma(),
        ),
    ensures
        r is Some <==> blur.on_screen(drawable_width, drawable_height),
        r is Some ==> r->0@ == blur.steps(current, drawable_width, drawable_height, samples@),
{
    let (x0, y0, x1, y1): (u32, u32, u32, u32) = match find_region(
        blur,
        drawable_width,
        drawable_height,
    ) {
        None => {
            return None;
        },
        Some(region) => region,
    };
    let downsample: u32 = find_downsample(blur);
    let (scratch, create) = ensure_backdrop_scratch(
        current,
        x1 - x0,
        y1 - y0,
        downsample,
        drawable_width,
        drawable_height,
    );
    let copy_x: u32 = find_copy_start(x0, scratch.width, drawable_width);
    let copy_y: u32 = find_copy_start(y0, scratch.height, drawable_height);
    let sigma = find_texel_sigma(blur);
    let v = find_visible(blur);
    let (horizontal_region, vertical_region) = find_rectangles(
        [v.origin.x.0, v.origin.y.0, v.size.width.0, v.size.height.0],
        [copy_x, copy_y, scratch.width, scratch.height],
        [scratch.blur_width, scratch.blur_height],
        sigma,
    );
    let horizontal_words = pass_uniform(
        true,
        sigma,
        Float32::from_u32(downsample),
        scratch.width,
        scratch.height,
        samples,
    );
    let vertical_words = pass_uniform(
        false,
        sigma,
        Float32::from_bits(0x3f80_0000),
        scratch.blur_width,
        scratch.blur_height,
        samples,
    );
    let composite_words = composite_uniform(blur, copy_x, copy_y, scratch);
    Some(
        BlurPlan {
            scratch,
            create,
            copy_x,
            copy_y,
            horizontal_words,
            vertical_words,
            composite_words,
            horizontal_region,
            vertical_region,
        },
    )
}

/// The copy for a blur that is on screen covers the padded region, stays inside
/// the drawable and fills its texture, whatever textures were at hand. The
/// uniforms have the sizes that the shaders expect.
pub proof fn law_blur_stays_inside(
    blur: BackdropBlur,
    current: Option<BackdropScratch>,
    drawable_width: u32,
    drawable_height: u32,
    samples: Seq<Float32>,
)
    requires
        blur.on_screen(drawable_width, drawable_height),
        current is Some ==> current->0.valid(),
    ensures
        ({
            let (x0, y0, x1, y1) = blur.padded_region(drawable_width, drawable_height);
            let s = blur.steps(current, drawable_width, drawable_height, samples);
            &&& s.scratch.valid()
            &&& 0 <= s.copy_x <= x0
            &&& x1 <= s.copy_x + s.scratch.width <= drawable_width
            &&& 0 <= s.copy_y <= y0
            &&& y1 <= s.copy_y + s.scratch.height <= drawable_height
            &&& 4 * s.horizontal_words.len() == BLUR_PASS_SIZE
            &&& 4 * s.vertical_words.len() == BLUR_PASS_SIZE
            &&& 4 * s.composite_words.len() == BACKDROP_SIZE
        }),
{
    lemma_padded_region(blur, drawable_width, drawable_height);
    let (x0, y0, x1, y1) = blur.padded_region(drawable_width, drawable_height);
    assert(1 <= blur.downsample() <= 4) by {
        reveal(BackdropBlur::downsample);
    }
    law_scratch_holds_region(
        current,
        (x1 - x0) as u32,
        (y1 - y0) as u32,
        blur.downsample(),
        drawable_width,
        drawable_height,
    );
    let s = blur.steps(current, drawable_width, drawable_height, samples);
    law_copy_covers_region(x0, x1, s.scratch.width, drawable_width);
    law_copy_covers_region(y0, y1, s.scratch.height, drawable_height);
    assert(s.horizontal_words.len() == 140 && s.vertical_words.len() == 140) by {
        reveal(pass_words);
    }
    assert(s.composite_words.len() == 16) by {
        reveal(composite_words);
    }
}

proof fn lemma_padded_region(blur: BackdropBlur, drawable_width: u32, drawable_height: u32)
    ensures
        ({
            let (x0, y0, x1, y1) = blur.padded_region(drawable_width, drawable_height);
            0 <= x0 && 0 <= y0 && x1 <= drawable_width && y1 <= drawable_height
        }),
{
    reveal(BackdropBlur::padded_region);
}

/// A plan says what its steps say.
pub proof fn law_plans_are_steps(plan: BlurPlan)
    ensures
        plan@.scratch == plan.scratch && plan@.create == plan.create,
        plan@.copy_x == plan.copy_x && plan@.copy_y == plan.copy_y,
        plan@.horizontal_words == plan.horizontal_words@,
        plan@.vertical_words == plan.vertical_words@,
        plan@.composite_words == plan.composite_words@,
        plan@.horizontal_region == plan.horizontal_region@,
        plan@.vertical_region == plan.vertical_region@,
{
}

} // verus!
