//! Textures: which pixel formats are uploaded as they are, and how.

use crate::commands::{
    ACCESS_SHADER_READ, ACCESS_TRANSFER_WRITE, STAGE_ALL_COMMANDS, STAGE_TRANSFER,
};
use vstd::prelude::*;

verus! {

/// The pixel formats that the upload knows.
#[derive(Clone, Copy, Debug, PartialEq, Eq, Structural)]
pub enum PixelFormat {
    /// Four bytes.
    Rgba8Unorm,
    /// Four single-precision numbers.
    Rgba32Float,
}

impl PixelFormat {
    /// Bytes of one pixel.
    pub open spec fn size(self) -> int {
        match self {
            PixelFormat::Rgba8Unorm => 4,
            PixelFormat::Rgba32Float => 16,
        }
    }

    /// Bytes of one pixel.
    pub fn bytes_per_pixel(&self) -> (r: u32)
        ensures
            r == self.size(),
    {
        match self {
            PixelFormat::Rgba8Unorm => 4,
            PixelFormat::Rgba32Float => 16,
        }
    }
}

/// The layouts that an image goes through.
#[derive(Clone, Copy, Debug, PartialEq, Eq, Structural)]
pub enum ImageLayout {
    Undefined,
    General,
    ShaderReadOnly,
    TransferSource,
    TransferDestination,
    Attachment,
    Present,
}

/// The format of pixels of `size` bytes, where the upload knows one.
pub open spec fn format_of(size: int) -> Option<PixelFormat> {
    if size == 4 {
        Some(PixelFormat::Rgba8Unorm)
    } else if size == 16 {
        Some(PixelFormat::Rgba32Float)
    } else {
        None
    }
}

/// Bytes for each pixel of an image; an image without pixels counts as one.
pub open spec fn bytes_per_pixel(len: int, width: u32, height: u32) -> int {
    let pixels = width * height;
    len / if pixels < 1 {
        1
    } else {
        pixels
    }
}

/// The format in which image data can be uploaded as it is; where there is none, the image
/// must be converted to four bytes per pixel first.
pub fn extract_format(len: Option<usize>, width: u32, height: u32) -> (r: Option<PixelFormat>)
    ensures
        r == (match len {
            Some(len) => format_of(bytes_per_pixel(len as int, width, height)),
            None => None,
        }),
{
    match len {
        Some(len) => {
            assert(width * height <= 0xFFFF_FFFFu64 * 0xFFFF_FFFFu64) by (nonlinear_arith)
                requires
                    width <= 0xFFFF_FFFF,
                    height <= 0xFFFF_FFFF,
            ;
            let pixels: u64 = width as u64 * height as u64;
            let size: u64 = len as u64 / if pixels < 1 {
                1
            } else {
                pixels
            };
            if size == 4 {
                Some(PixelFormat::Rgba8Unorm)
            } else if size == 16 {
                Some(PixelFormat::Rgba32Float)
            } else {
                None
            }
        },
        None => None,
    }
}

/// The pixel formats that an image can be converted from.
#[derive(Clone, Copy, Debug, PartialEq, Eq, Structural)]
pub enum SourceFormat {
    R8Unorm,
    Rg8Unorm,
    Rgba8UnormSrgb,
    Bgra8Unorm,
    Bgra8UnormSrgb,
}

impl SourceFormat {
    /// Bytes of one pixel.
    pub open spec fn size(self) -> int {
        match self {
            SourceFormat::R8Unorm => 1,
            SourceFormat::Rg8Unorm => 2,
            SourceFormat::Rgba8UnormSrgb => 4,
            SourceFormat::Bgra8Unorm => 4,
            SourceFormat::Bgra8UnormSrgb => 4,
        }
    }
}

/// What `bevy::image::Image::convert` makes of an image of this format and size that holds these
/// bytes, where the result is to have four bytes per pixel.
pub uninterp spec fn rgba8_of(source: SourceFormat, width: u32, height: u32,
    data: Seq<u8>) -> Option<
    Seq<u8>,
>;

/// An image that can be handed to the conversion: its pixels, and the bytes of a row of an image
/// without rows, can be counted in 32 bits, the result fits in memory, and four-byte pixels are
/// followed by nothing.
pub open spec fn convertible(source: SourceFormat, width: u32, height: u32, len: nat) -> bool {
    &&& width * height <= u32::MAX
    &&& height == 0 ==> 4 * width <= u32::MAX
    &&& 4 * (width * height) <= isize::MAX
    &&& source.size() == 4 ==> len <= 4 * (width * height)
}

/// Whether an image can be handed to the conversion.
pub fn is_convertible(source: SourceFormat, width: u32, height: u32, len: usize) -> (r: bool)
    ensures
        r == convertible(source, width, height, len as nat),
{
    assert(width * height <= 0xFFFF_FFFFu64 * 0xFFFF_FFFFu64) by (nonlinear_arith)
        requires
            width <= 0xFFFF_FFFF,
            height <= 0xFFFF_FFFF,
    ;
    let pixels: u64 = width as u64 * height as u64;
    if pixels > 0xFFFF_FFFF || 4 * pixels > isize::MAX as u64 || (height == 0 && width
        > 0x3FFF_FFFF) {
        return false;
    }
    match source {
        SourceFormat::R8Unorm => true,
        SourceFormat::Rg8Unorm => true,
        SourceFormat::Rgba8UnormSrgb => len as u64 <= 4 * pixels,
        SourceFormat::Bgra8Unorm => len as u64 <= 4 * pixels,
        SourceFormat::Bgra8UnormSrgb => len as u64 <= 4 * pixels,
    }
}

/// Calls `bevy::image::Image::convert` on an image of this format and size with these bytes, and
/// asks for four bytes per pixel. What is claimed: the result is a function of the arguments; it
/// has four bytes for each pixel; and there is one exactly where the bytes suffice for the
/// pixels. What each byte is, is left to the name.
#[verifier::external_body]
fn convert_rgba8(source: SourceFormat, width: u32, height: u32, data: &Vec<u8>) -> (r: Option<
    Vec<u8>,
>)
    requires
        convertible(source, width, height, data@.len()),
    ensures
        match r {
            Some(bytes) => rgba8_of(source, width, height, data@) == Some(bytes@),
            None => rgba8_of(source, width, height, data@) == None::<Seq<u8>>,
        },
        r matches Some(bytes) ==> bytes@.len() == 4 * (width * height),
        r is Some <==> source.size() * (width * height) <= data@.len(),
{
    let format = match source {
        SourceFormat::R8Unorm => wgpu_types::TextureFormat::R8Unorm,
        SourceFormat::Rg8Unorm => wgpu_types::TextureFormat::Rg8Unorm,
        SourceFormat::Rgba8UnormSrgb => wgpu_types::TextureFormat::Rgba8UnormSrgb,
        SourceFormat::Bgra8Unorm => wgpu_types::TextureFormat::Bgra8Unorm,
        SourceFormat::Bgra8UnormSrgb => wgpu_types::TextureFormat::Bgra8UnormSrgb,
    };
    let size = wgpu_types::Extent3d { width, height, depth_or_array_layers: 1 };
    let dimension = wgpu_types::TextureDimension::D2;
    let usage = bevy::asset::RenderAssetUsages::default();
    let mut image = bevy::image::Image::new_uninit(size, dimension, format, usage);
    image.data = Some(data.clone());
    image.convert(wgpu_types::TextureFormat::Rgba8UnormSrgb).and_then(|image| image.data)
}

/// The bytes of an image that is uploaded: as they are where the upload knows their format, else
/// converted to four bytes per pixel. `format` is `None` where the conversion does not know the
/// image's format, and `data` where the image has no bytes.
pub open spec fn extracted(
    format: Option<SourceFormat>,
    width: u32,
    height: u32,
    data: Option<Seq<u8>>,
) -> Option<Seq<u8>> {
    match data {
        None => None,
        Some(bytes) => if format_of(bytes_per_pixel(bytes.len() as int, width, height)) is Some {
            Some(bytes)
        } else {
            match format {
                Some(source) => rgba8_of(source, width, height, bytes),
                None => None,
            }
        },
    }
}

/// The contents of optional bytes.
pub open spec fn bytes_view(data: Option<Vec<u8>>) -> Option<Seq<u8>> {
    match data {
        Some(bytes) => Some(bytes@),
        None => None,
    }
}

/// Gives the bytes of an image in a format that the upload knows; `None` where the image has no
/// bytes, or is in another format and cannot be converted. An image with pixels is then in a
/// format that the upload knows.
pub fn extract_asset(
    format: Option<SourceFormat>,
    width: u32,
    height: u32,
    data: &Option<Vec<u8>>,
) -> (r: Option<Vec<u8>>)
    requires
        data is Some && format is Some && format_of(
            bytes_per_pixel(data->0@.len() as int, width, height),
        ) is None ==> convertible(format->0, width, height, data->0@.len()),
    ensures
        bytes_view(r) == extracted(format, width, height, bytes_view(*data)),
        r is Some && width * height > 0 ==> format_of(
            bytes_per_pixel(r->0@.len() as int, width, height),
        ) is Some,
        r is Some <==> data is Some && (format_of(
            bytes_per_pixel(data->0@.len() as int, width, height),
        ) is Some || (format is Some && format->0.size() * (width * height) <= data->0@.len())),
{
    let bytes: &Vec<u8> = match data {
        Some(bytes) => bytes,
        None => {
            return None;
        },
    };
    proof {
        if width * height > 0 {
            lemma_exact(width * height, 4);
        }
    }
    if extract_format(Some(bytes.len()), width, height).is_some() {
        let copy: Vec<u8> = bytes.clone();
        assert(copy@ =~= bytes@);
        return Some(copy);
    }
    match format {
        Some(source) => convert_rgba8(source, width, height, bytes),
        None => None,
    }
}

/// So many bytes for each of the pixels are so many bytes per pixel.
proof fn lemma_exact(pixels: int, size: int)
    requires
        pixels > 0,
    ensures
        (size * pixels) / pixels == size,
{
    assert((size * pixels) / pixels == size) by (nonlinear_arith)
        requires
            pixels > 0,
    ;
}

/// A layout change of the uploaded image, ordered between these stages and accesses.
#[derive(Clone, Copy, Debug, PartialEq, Eq, Structural)]
pub struct Transition {
    pub from: ImageLayout,
    pub to: ImageLayout,
    pub src_stage: u64,
    pub src_access: u64,
    pub dst_stage: u64,
    pub dst_access: u64,
}

/// How an image is uploaded: through this many staged bytes, with one layout change before
/// the copy and one behind it.
#[derive(Clone, Copy, Debug, PartialEq, Eq, Structural)]
pub struct TexturePlan {
    pub staging_bytes: u64,
    pub to_transfer: Transition,
    pub to_final: Transition,
}

/// The image's data is exactly as long as its pixels.
pub open spec fn data_fits(len: nat, format: PixelFormat, width: u32, height: u32) -> bool {
    &&& width * height * format.size() <= u32::MAX
    &&& len == width * height * format.size()
}

/// Whether the image's data is exactly as long as its pixels, which can be counted in 32 bits.
pub fn check_data(len: usize, format: PixelFormat, width: u32, height: u32) -> (r: bool)
    ensures
        r == data_fits(len as nat, format, width, height),
{
    let size: u64 = format.bytes_per_pixel() as u64;
    assert(width * height <= 0xFFFF_FFFFu64 * 0xFFFF_FFFFu64) by (nonlinear_arith)
        requires
            width <= 0xFFFF_FFFF,
            height <= 0xFFFF_FFFF,
    ;
    let pixels: u64 = width as u64 * height as u64;
    if pixels > 0xFFFF_FFFF {
        assert(width * height * format.size() > u32::MAX) by (nonlinear_arith)
            requires
                pixels == width * height,
                pixels > 0xFFFF_FFFF,
                format.size() >= 1,
        ;
        return false;
    }
    assert(pixels * size == width * height * format.size()) by (nonlinear_arith)
        requires
            pixels == width * height,
            size == format.size(),
    ;
    let bytes: u64 = pixels * size;
    bytes <= 0xFFFF_FFFF && len as u64 == bytes
}

/// The plan for an image that ends up in `desired`: the copy is ordered between the two
/// layout changes.
pub fn load_texture_from_bytes(
    len: usize,
    format: PixelFormat,
    desired: ImageLayout,
    width: u32,
    height: u32,
) -> (r: TexturePlan)
    requires
        data_fits(len as nat, format, width, height),
    ensures
        r.staging_bytes == width * height * format.size(),
        r.to_transfer.to == r.to_final.from,
        r.to_final.to == desired,
        r.to_transfer.dst_access == r.to_final.src_access,
        r == (TexturePlan {
            staging_bytes: len as u64,
            to_transfer: Transition {
                from: ImageLayout::Undefined,
                to: ImageLayout::TransferDestination,
                src_stage: 0,
                src_access: 0,
                dst_stage: STAGE_TRANSFER,
                dst_access: ACCESS_TRANSFER_WRITE,
            },
            to_final: Transition {
                from: ImageLayout::TransferDestination,
                to: desired,
                src_stage: STAGE_TRANSFER,
                src_access: ACCESS_TRANSFER_WRITE,
                dst_stage: STAGE_ALL_COMMANDS,
                dst_access: ACCESS_SHADER_READ,
            },
        }),
{
    TexturePlan {
        staging_bytes: len as u64,
        to_transfer: Transition {
            from: ImageLayout::Undefined,
            to: ImageLayout::TransferDestination,
            src_stage: 0,
            src_access: 0,
            dst_stage: STAGE_TRANSFER,
            dst_access: ACCESS_TRANSFER_WRITE,
        },
        to_final: Transition {
            from: ImageLayout::TransferDestination,
            to: desired,
            src_stage: STAGE_TRANSFER,
            src_access: ACCESS_TRANSFER_WRITE,
            dst_stage: STAGE_ALL_COMMANDS,
            dst_access: ACCESS_SHADER_READ,
        },
    }
}

/// Whether an image gets memory of its own: the driver requires or prefers it.
pub fn dedicated(requires_dedicated: bool, prefers_dedicated: bool) -> (r: bool)
    ensures
        r == (requires_dedicated || prefers_dedicated),
{
    requires_dedicated || prefers_dedicated
}

/// Channel `c` of pixel `p` once it was padded: the source's where it has one, else black
/// colour and white alpha.
pub open spec fn padded_channel(bytes: Seq<u8>, src_bytes_per_pixel: u32, p: int, c: int) -> u8 {
    if c < src_bytes_per_pixel {
        bytes[p * src_bytes_per_pixel + c]
    } else if c == 3 {
        255
    } else {
        0
    }
}

/// Every channel that is read of `pixels` pixels is there.
pub open spec fn pixels_there(len: nat, src_bytes_per_pixel: u32, pixels: int) -> bool {
    pixels > 0 ==> (pixels - 1) * src_bytes_per_pixel + (if src_bytes_per_pixel < 4 {
        src_bytes_per_pixel as int
    } else {
        4
    }) <= len
}

/// Pads pixels to four channels: colour black, alpha white.
pub fn padd_pixel_bytes_rgba_unorm(
    bytes: &[u8],
    src_bytes_per_pixel: u32,
    width: usize,
    height: usize,
) -> (r: Vec<u8>)
    requires
        width * height * 4 <= usize::MAX,
        pixels_there(bytes@.len(), src_bytes_per_pixel, width * height),
    ensures
        r@ == Seq::new(
            (width * height * 4) as nat,
            |i: int| padded_channel(bytes@, src_bytes_per_pixel, i / 4, i % 4),
        ),
{
    assert(width * height <= usize::MAX) by (nonlinear_arith)
        requires
            width * height * 4 <= usize::MAX,
    ;
    let pixels: usize = width * height;
    let mut r: Vec<u8> = Vec::new();
    let mut p: usize = 0;
    while p < pixels
        invariant
            p <= pixels,
            pixels == width * height,
            pixels * 4 <= usize::MAX,
            pixels_there(bytes@.len(), src_bytes_per_pixel, pixels as int),
            r@ == Seq::new(
                (p * 4) as nat,
                |i: int| padded_channel(bytes@, src_bytes_per_pixel, i / 4, i % 4),
            ),
        decreases pixels - p,
    {
        let mut c: u32 = 0;
        while c < 4
            invariant
                c <= 4,
                p < pixels,
                pixels * 4 <= usize::MAX,
                pixels_there(bytes@.len(), src_bytes_per_pixel, pixels as int),
                r@ == Seq::new(
                    (p * 4 + c) as nat,
                    |i: int| padded_channel(bytes@, src_bytes_per_pixel, i / 4, i % 4),
                ),
            decreases 4 - c,
        {
            let byte: u8 = if c < src_bytes_per_pixel {
                proof {
                    let n = src_bytes_per_pixel as int;
                    assert(p * n <= (pixels - 1) * n) by (nonlinear_arith)
                        requires
                            p <= pixels - 1,
                            n >= 0,
                    ;
                    assert(bytes.len() <= usize::MAX);
                }
                bytes[p * src_bytes_per_pixel as usize + c as usize]
            } else if c == 3 {
                255
            } else {
                0
            };
            r.push(byte);
            proof {
                let i = p * 4 + c;
                assert(i / 4 == p && i % 4 == c);
                assert(r@ =~= Seq::new(
                    (p * 4 + c + 1) as nat,
                    |i: int| padded_channel(bytes@, src_bytes_per_pixel, i / 4, i % 4),
                ));
            }
            c = c + 1;
        }
        p = p + 1;
    }
    assert((width * height) * 4 == width * height * 4);
    r
}

} // verus!
