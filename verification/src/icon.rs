//! The application icon: a star with a white core, a cyan ring and fading rays.
use vstd::prelude::*;

use crate::float_order::is_above32;
#[allow(unused_imports)]
use crate::float_order::above32;

verus! {

/// Edge length of the window icon in pixels.
pub const ICON_SIZE: u32 = 32;

/// Edge length of the saved icon in pixels.
pub const PNG_SIZE: u32 = 256;

/// `3.0` as a single: the core ends here.
pub const CORE_RADIUS: u32 = 0x4040_0000;

/// `7.0` as a single: the ring ends here.
pub const RING_RADIUS: u32 = 0x40e0_0000;

/// `14.0` as a single: the glow ends here.
pub const GLOW_RADIUS: u32 = 0x4160_0000;

/// `18.0` as a single: the traces of the rays end here.
pub const TRACE_RADIUS: u32 = 0x4190_0000;

/// `0.05` as a single: fainter rays are not drawn on the background.
pub const FAINTEST_RAY: u32 = 0x3d4c_cccd;

/// The part of the star that a pixel belongs to.
#[derive(Debug, Clone, Copy, PartialEq, Eq, Structural)]
pub enum IconBand {
    /// The bright white core.
    Core,
    /// The cyan glow ring.
    Ring,
    /// The outer glow with its rays.
    Glow,
    /// The background with faint traces of the rays.
    Background,
}

/// The band at a distance from the center, given as a single in pixels of the
/// 32-pixel design.
pub open spec fn band_at(distance: u32) -> IconBand {
    if above32(CORE_RADIUS, distance) {
        IconBand::Core
    } else if above32(RING_RADIUS, distance) {
        IconBand::Ring
    } else if above32(GLOW_RADIUS, distance) {
        IconBand::Glow
    } else {
        IconBand::Background
    }
}

/// The band at a distance from the center.
pub fn icon_band(distance: u32) -> (band: IconBand)
    ensures
        band == band_at(distance),
{
    if is_above32(CORE_RADIUS, distance) {
        IconBand::Core
    } else if is_above32(RING_RADIUS, distance) {
        IconBand::Ring
    } else if is_above32(GLOW_RADIUS, distance) {
        IconBand::Glow
    } else {
        IconBand::Background
    }
}

/// A color with its opacity.
#[derive(Debug, Clone, Copy, PartialEq, Eq, Structural)]
pub struct RingColor {
    pub r: u8,
    pub g: u8,
    pub b: u8,
    pub a: u8,
}

/// A color without red, with its opacity.
#[derive(Debug, Clone, Copy, PartialEq, Eq, Structural)]
pub struct RayColor {
    pub g: u8,
    pub b: u8,
    pub a: u8,
}

/// What was measured for a pixel: how far it is from the center, and the color that
/// it has if it belongs to the one band or the other.
#[derive(Debug, Clone, Copy, PartialEq, Eq, Structural)]
pub struct IconPixel {
    /// The distance from the center, a single in pixels of the 32-pixel design.
    pub distance: u32,
    /// The gray level of the core.
    pub core: u8,
    pub ring: RingColor,
    pub glow: RayColor,
    /// The strength of the ray behind the glow, a single.
    pub ray: u32,
    pub trace: RayColor,
}

/// How a pixel is shaded, by the band that it belongs to.
#[derive(Debug, Clone, Copy, PartialEq, Eq, Structural)]
pub enum IconShade {
    /// A gray level.
    Core { level: u8 },
    Ring { color: RingColor },
    Glow { tint: RayColor },
    /// The color of a ray's trace.
    Trace { tint: RayColor },
    /// Nothing is drawn.
    Clear,
}

/// A channel kept in the range from `low` to `high`.
pub open spec fn kept(channel: u8, low: u8, high: u8) -> u8 {
    if channel < low {
        low
    } else if channel > high {
        high
    } else {
        channel
    }
}

fn keep(channel: u8, low: u8, high: u8) -> (inside: u8)
    ensures
        inside == kept(channel, low, high),
{
    if channel < low {
        low
    } else if channel > high {
        high
    } else {
        channel
    }
}

impl IconPixel {
    /// The shade of the band that the pixel's distance falls into. Every channel is
    /// kept in the range that its band fades through. On the background a ray leaves
    /// a trace if it is strong enough and the pixel not too far out.
    pub open spec fn shaded(self) -> IconShade {
        match band_at(self.distance) {
            IconBand::Core => IconShade::Core { level: kept(self.core, 225, 255) },
            IconBand::Ring => IconShade::Ring {
                color: RingColor {
                    r: kept(self.ring.r, 0, 200),
                    g: kept(self.ring.g, 180, 240),
                    b: kept(self.ring.b, 240, 255),
                    a: kept(self.ring.a, 200, 255),
                },
            },
            IconBand::Glow => IconShade::Glow {
                tint: RayColor {
                    g: kept(self.glow.g, 0, 200),
                    b: self.glow.b,
                    a: kept(self.glow.a, 1, 220),
                },
            },
            IconBand::Background => if above32(TRACE_RADIUS, self.distance) && above32(
                self.ray,
                FAINTEST_RAY,
            ) {
                IconShade::Trace {
                    tint: RayColor {
                        g: kept(self.trace.g, 0, 80),
                        b: kept(self.trace.b, 0, 120),
                        a: kept(self.trace.a, 7, 150),
                    },
                }
            } else {
                IconShade::Clear
            },
        }
    }

    /// Chooses the shade of the band that the pixel's distance falls into.
    pub fn shade(&self) -> (shade: IconShade)
        ensures
            shade == self.shaded(),
    {
        match icon_band(self.distance) {
            IconBand::Core => IconShade::Core { level: keep(self.core, 225, 255) },
            IconBand::Ring => IconShade::Ring {
                color: RingColor {
                    r: keep(self.ring.r, 0, 200),
                    g: keep(self.ring.g, 180, 240),
                    b: keep(self.ring.b, 240, 255),
                    a: keep(self.ring.a, 200, 255),
                },
            },
            IconBand::Glow => IconShade::Glow {
                tint: RayColor {
                    g: keep(self.glow.g, 0, 200),
                    b: self.glow.b,
                    a: keep(self.glow.a, 1, 220),
                },
            },
            IconBand::Background => {
                if is_above32(TRACE_RADIUS, self.distance) && is_above32(self.ray, FAINTEST_RAY) {
                    IconShade::Trace {
                        tint: RayColor {
                            g: keep(self.trace.g, 0, 80),
                            b: keep(self.trace.b, 0, 120),
                            a: keep(self.trace.a, 7, 150),
                        },
                    }
                } else {
                    IconShade::Clear
                }
            },
        }
    }
}

impl IconShade {
    /// The pixel's red, green, blue and alpha.
    pub open spec fn rgba(self) -> Seq<u8> {
        match self {
            IconShade::Core { level } => seq![level, level, level, 255u8],
            IconShade::Ring { color } => seq![color.r, color.g, color.b, color.a],
            IconShade::Glow { tint } => seq![0u8, tint.g, tint.b, tint.a],
            IconShade::Trace { tint } => seq![0u8, tint.g, tint.b, tint.a],
            IconShade::Clear => seq![0u8, 0u8, 0u8, 0u8],
        }
    }

    /// The pixel's red, green, blue and alpha.
    pub fn to_rgba(&self) -> (rgba: [u8; 4])
        ensures
            rgba@ == self.rgba(),
    {
        let rgba = match *self {
            IconShade::Core { level } => [level, level, level, 255],
            IconShade::Ring { color } => [color.r, color.g, color.b, color.a],
            IconShade::Glow { tint } => [0, tint.g, tint.b, tint.a],
            IconShade::Trace { tint } => [0, tint.g, tint.b, tint.a],
            IconShade::Clear => [0, 0, 0, 0],
        };
        assert(rgba@ =~= self.rgba());
        rgba
    }
}

/// The bytes of an image with these pixels, row by row.
pub open spec fn image_bytes(pixels: Seq<IconPixel>) -> Seq<u8> {
    Seq::new(4 * pixels.len(), |i: int| pixels[i / 4].shaded().rgba()[i % 4])
}

/// Draws the icon at `size` by `size` pixels: four bytes for each pixel, red first,
/// row by row from the top. `pixels` holds the pixels in the same order.
pub fn create_icon_rgba(size: u32, pixels: &[IconPixel]) -> (rgba: Vec<u8>)
    requires
        size * size * 4 <= u32::MAX,
        pixels@.len() == size * size,
    ensures
        rgba@ == image_bytes(pixels@),
        rgba@.len() == size * size * 4,
        forall|x: int, y: int, c: int|
            #![trigger pixels@[y * size + x], image_bytes(pixels@)[(y * size + x) * 4 + c]]
            0 <= x < size && 0 <= y < size && 0 <= c < 4 ==> rgba@[(y * size + x) * 4 + c]
                == pixels@[y * size + x].shaded().rgba()[c],
{
    let mut rgba: Vec<u8> = Vec::new();
    let mut pixel: usize = 0;
    while pixel < pixels.len()
        invariant
            pixel <= pixels@.len(),
            rgba@ == image_bytes(pixels@.take(pixel as int)),
        decreases pixels@.len() - pixel,
    {
        let color = pixels[pixel].shade().to_rgba();
        rgba.push(color[0]);
        rgba.push(color[1]);
        rgba.push(color[2]);
        rgba.push(color[3]);
        pixel += 1;
        assert(rgba@ =~= image_bytes(pixels@.take(pixel as int)));
    }
    assert(pixels@.take(pixel as int) =~= pixels@);
    proof {
        assert forall|x: int, y: int, c: int|
            #![trigger pixels@[y * size + x], image_bytes(pixels@)[(y * size + x) * 4 + c]]
            0 <= x < size && 0 <= y < size && 0 <= c < 4 implies rgba@[(y * size + x) * 4 + c]
            == pixels@[y * size + x].shaded().rgba()[c] by {
            assert(0 <= y * size + x < size * size) by (nonlinear_arith)
                requires
                    0 <= x < size,
                    0 <= y < size,
            ;
        }
    }
    rgba
}

/// A window icon of the GUI toolkit.
#[verifier::external_type_specification]
#[verifier::external_body]
pub struct ExIcon(iced::window::Icon);

/// The bytes that an icon holds.
pub uninterp spec fn icon_bytes(icon: iced::window::Icon) -> Seq<u8>;

/// The width and the height of an icon.
pub uninterp spec fn icon_edges(icon: iced::window::Icon) -> Seq<u32>;

/// `iced::window::icon::from_rgba`: makes an icon of the bytes if there are four
/// for each pixel of the given size, and nothing otherwise.
#[verifier::external_body]
fn icon_from_rgba(rgba: Vec<u8>, width: u32, height: u32) -> (icon: Option<iced::window::Icon>)
    requires
        width * height <= u32::MAX,
    ensures
        icon is Some <==> rgba@.len() == 4 * (width * height),
        icon matches Some(made) ==> icon_bytes(made) == rgba@ && icon_edges(made) == seq![
            width,
            height,
        ],
{
    iced::window::icon::from_rgba(rgba, width, height).ok()
}

/// Draws the window icon. `pixels` holds its pixels row by row from the top.
pub fn create_icon(pixels: &[IconPixel]) -> (icon: iced::window::Icon)
    requires
        pixels@.len() == ICON_SIZE * ICON_SIZE,
    ensures
        icon_bytes(icon) == image_bytes(pixels@),
        icon_edges(icon) == seq![ICON_SIZE, ICON_SIZE],
{
    let rgba = create_icon_rgba(ICON_SIZE, pixels);
    icon_from_rgba(rgba, ICON_SIZE, ICON_SIZE).unwrap()
}

/// The bands follow each other outwards: a pixel that is not nearer to the center
/// than another never belongs to a band further in.
pub proof fn law_bands_grow_outwards(near: u32, far: u32)
    requires
        above32(far, near),
    ensures
        band_at(far) is Core ==> band_at(near) is Core,
        band_at(far) is Ring ==> band_at(near) is Core || band_at(near) is Ring,
        band_at(near) is Background ==> band_at(far) is Background,
{
}

/// What the distance of a pixel says of its four bytes in the image, whatever else
/// was measured: the core is an opaque, bright gray, the ring a cyan that is never
/// faint, nothing beyond the ring has any red, everything inside the glow can be
/// seen, nothing is drawn where the traces have ended, and what cannot be seen is
/// black.
pub proof fn law_color_by_distance(pixels: Seq<IconPixel>, i: int)
    requires
        0 <= i < pixels.len(),
    ensures
        ({
            let bytes = image_bytes(pixels);
            let (r, g, b, a) = (bytes[4 * i], bytes[4 * i + 1], bytes[4 * i + 2], bytes[4 * i + 3]);
            let nearer = |radius: u32| above32(radius, pixels[i].distance);
            &&& nearer(CORE_RADIUS) ==> a == 255 && r == g == b && r >= 225
            &&& !nearer(CORE_RADIUS) && nearer(RING_RADIUS) ==> r <= 200 && 180 <= g <= 240 && 240
                <= b && 200 <= a
            &&& !nearer(RING_RADIUS) ==> r == 0
            &&& nearer(GLOW_RADIUS) ==> a >= 1
            &&& !nearer(TRACE_RADIUS) ==> a == 0
            &&& a == 0 ==> r == 0 && g == 0 && b == 0
        }),
{
}

/// A measured color reaches the image as it is wherever it lies in the range that its
/// band fades through. A ray leaves its trace exactly where it is above `0.05` and the
/// distance below `18.0`.
pub proof fn law_colors_reach_the_image(pixels: Seq<IconPixel>, i: int)
    requires
        0 <= i < pixels.len(),
    ensures
        ({
            let bytes = image_bytes(pixels);
            let (r, g, b, a) = (bytes[4 * i], bytes[4 * i + 1], bytes[4 * i + 2], bytes[4 * i + 3]);
            let pixel = pixels[i];
            let nearer = |radius: u32| above32(radius, pixel.distance);
            let (ring, glow, trace) = (pixel.ring, pixel.glow, pixel.trace);
            let traced = nearer(0x4190_0000) && above32(pixel.ray, 0x3d4c_cccd);
            &&& bytes.len() == 4 * pixels.len()
            &&& nearer(0x4040_0000) && pixel.core >= 225 ==> r == pixel.core
            &&& !nearer(0x4040_0000) && nearer(0x40e0_0000) ==> {
                &&& ring.r <= 200 ==> r == ring.r
                &&& 180 <= ring.g <= 240 ==> g == ring.g
                &&& ring.b >= 240 ==> b == ring.b
                &&& ring.a >= 200 ==> a == ring.a
            }
            &&& !nearer(0x40e0_0000) && nearer(0x4160_0000) ==> {
                &&& glow.g <= 200 ==> g == glow.g
                &&& b == glow.b
                &&& 1 <= glow.a <= 220 ==> a == glow.a
                &&& glow.a == 0 ==> a == 1
            }
            &&& !nearer(0x4160_0000) && traced ==> {
                &&& trace.g <= 80 ==> g == trace.g
                &&& trace.b <= 120 ==> b == trace.b
                &&& 7 <= trace.a <= 150 ==> a == trace.a
            }
            &&& !nearer(0x4160_0000) ==> (a > 0 <==> traced)
        }),
{
}

} // verus!
