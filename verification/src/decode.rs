//! Turning PNG and JPEG files into straight, 8-bit RGBA pixels. The
//! formats are decoded by their crates; which decoder runs, and how every
//! pixel layout they produce becomes RGBA, is decided here.

use vstd::prelude::*;

verus! {

/// Pixels as straight (not premultiplied) RGBA, four bytes a pixel, row
/// by row.
pub struct DecodedImage {
    pub rgba: Vec<u8>,
    pub width: u32,
    pub height: u32,
}

/// The colour layouts a PNG frame comes out in once its samples are
/// normalised to 8 bits.
#[derive(Debug, Clone, Copy, PartialEq, Eq)]
pub enum PngColor {
    Rgba,
    Rgb,
    GrayscaleAlpha,
    Grayscale,
    Indexed,
}

/// The pixel formats a JPEG decodes to.
#[derive(Debug, Clone, Copy, PartialEq, Eq)]
pub enum JpegFormat {
    Rgb24,
    L8,
    L16,
    Cmyk32,
}

/// How the bytes of one source pixel become RGBA.
#[derive(Debug, Clone, Copy, PartialEq, Eq)]
pub enum PixelLayout {
    /// Red, green, blue; opaque.
    Rgb,
    /// Grey and alpha.
    GrayAlpha,
    /// Grey; opaque.
    Gray,
    /// 16-bit grey; its second byte is kept, opaque.
    Gray16,
}

/// The bytes one source pixel of `layout` takes.
pub open spec fn stride_of(layout: PixelLayout) -> int {
    match layout {
        PixelLayout::Rgb => 3,
        PixelLayout::GrayAlpha => 2,
        PixelLayout::Gray => 1,
        PixelLayout::Gray16 => 2,
    }
}

/// The RGBA bytes of the source pixel whose bytes start at `b`.
pub open spec fn pixel_rgba(src: Seq<u8>, layout: PixelLayout, b: int) -> Seq<u8> {
    match layout {
        PixelLayout::Rgb => seq![src[b], src[b + 1], src[b + 2], 255u8],
        PixelLayout::GrayAlpha => seq![src[b], src[b], src[b], src[b + 1]],
        PixelLayout::Gray => seq![src[b], src[b], src[b], 255u8],
        PixelLayout::Gray16 => seq![src[b + 1], src[b + 1], src[b + 1], 255u8],
    }
}

/// The RGBA bytes of the first `n` pixels of `src`.
pub open spec fn expanded(src: Seq<u8>, layout: PixelLayout, n: nat) -> Seq<u8>
    decreases n,
{
    if n == 0 {
        seq![]
    } else {
        expanded(src, layout, (n - 1) as nat) + pixel_rgba(
            src,
            layout,
            (n - 1) * stride_of(layout),
        )
    }
}

/// `pixels` pixels of `src` as RGBA, or nothing when `src` is too short
/// to hold them.
pub open spec fn expand_of(src: Seq<u8>, pixels: nat, layout: PixelLayout) -> Option<Seq<u8>> {
    if src.len() < pixels * stride_of(layout) {
        None
    } else {
        Some(expanded(src, layout, pixels))
    }
}

/// Every pixel expands to exactly four bytes.
pub proof fn law_expanded_is_four_bytes_a_pixel(src: Seq<u8>, layout: PixelLayout, n: nat)
    ensures
        expanded(src, layout, n).len() == 4 * n,
    decreases n,
{
    if n > 0 {
        law_expanded_is_four_bytes_a_pixel(src, layout, (n - 1) as nat);
    }
}

/// The bytes a source pixel of `layout` takes.
fn stride(layout: PixelLayout) -> (s: usize)
    ensures
        s == stride_of(layout),
{
    match layout {
        PixelLayout::Rgb => 3,
        PixelLayout::GrayAlpha => 2,
        PixelLayout::Gray => 1,
        PixelLayout::Gray16 => 2,
    }
}

/// `pixels` pixels of `src` as RGBA, or `None` when `src` is too short.
pub fn expand(src: &Vec<u8>, pixels: usize, layout: PixelLayout) -> (r: Option<Vec<u8>>)
    ensures
        match r {
            Some(v) => expand_of(src@, pixels as nat, layout) == Some(v@),
            None => expand_of(src@, pixels as nat, layout) is None,
        },
{
    let stride = stride(layout);
    let len = src.len();
    let needed = match pixels.checked_mul(stride) {
        Some(n) => n,
        None => {
            return None;
        },
    };
    if src.len() < needed {
        return None;
    }
    let mut out: Vec<u8> = Vec::new();
    let mut i: usize = 0;
    let mut base: usize = 0;
    while i < pixels
        invariant
            stride == stride_of(layout),
            needed == pixels * stride,
            needed <= src@.len(),
            i <= pixels,
            base == i * stride,
            out@ == expanded(src@, layout, i as nat),
        decreases pixels - i,
    {
        proof {
            assert((i + 1) * stride == i * stride + stride) by (nonlinear_arith);
            assert((i + 1) * stride <= pixels * stride) by (nonlinear_arith)
                requires
                    i + 1 <= pixels,
                    stride >= 0,
            ;
        }
        let ghost prev = out@;
        match layout {
            PixelLayout::Rgb => {
                out.push(src[base]);
                out.push(src[base + 1]);
                out.push(src[base + 2]);
                out.push(255);
            },
            PixelLayout::GrayAlpha => {
                out.push(src[base]);
                out.push(src[base]);
                out.push(src[base]);
                out.push(src[base + 1]);
            },
            PixelLayout::Gray => {
                out.push(src[base]);
                out.push(src[base]);
                out.push(src[base]);
                out.push(255);
            },
            PixelLayout::Gray16 => {
                out.push(src[base + 1]);
                out.push(src[base + 1]);
                out.push(src[base + 1]);
                out.push(255);
            },
        }
        proof {
            assert(out@ =~= prev + pixel_rgba(src@, layout, i * stride_of(layout)));
        }
        base = base + stride;
        i = i + 1;
    }
    Some(out)
}

/// A PNG frame decoded to 8-bit samples: its bytes, width, height and
/// colour layout.
pub uninterp spec fn png_decoded(bytes: Seq<u8>) -> Option<(Seq<u8>, u32, u32, PngColor)>;

/// A JPEG decoded: its bytes, width, height and pixel format.
pub uninterp spec fn jpeg_decoded(bytes: Seq<u8>) -> Option<(Seq<u8>, u16, u16, JpegFormat)>;

/// The view of a decoded PNG frame.
pub open spec fn png_frame_view(f: Option<(Vec<u8>, u32, u32, PngColor)>) -> Option<(Seq<u8>, u32, u32, PngColor)> {
    match f {
        Some((b, w, h, c)) => Some((b@, w, h, c)),
        None => None,
    }
}

/// The view of a decoded JPEG.
pub open spec fn jpeg_frame_view(f: Option<(Vec<u8>, u16, u16, JpegFormat)>) -> Option<(Seq<u8>, u16, u16, JpegFormat)> {
    match f {
        Some((b, w, h, c)) => Some((b@, w, h, c)),
        None => None,
    }
}

/// The bytes one pixel of a PNG frame takes once its samples are
/// normalised to 8 bits: one for each sample.
pub open spec fn png_samples(c: PngColor) -> int {
    match c {
        PngColor::Rgba => 4,
        PngColor::Rgb => 3,
        PngColor::GrayscaleAlpha => 2,
        PngColor::Grayscale => 1,
        PngColor::Indexed => 1,
    }
}

/// Decodes the first frame of a PNG with `png::Decoder`, its samples
/// normalised to 8 bits (`Transformations::normalize_to_color8`): the
/// buffer `next_frame` filled, the frame's width, height and colour type.
/// `None` when the decoder reports an error. The result depends on the
/// bytes alone and is named, not described: nothing is claimed of what
/// the pixels are. What is claimed is the buffer's size: it is allocated
/// with `output_buffer_size`, one 8-bit sample per channel for every
/// pixel of the whole image, and `next_frame` accepts no frame larger
/// than the image, so the buffer holds at least a whole frame.
#[verifier::external_body]
fn png_frame(bytes: &[u8]) -> (r: Option<(Vec<u8>, u32, u32, PngColor)>)
    ensures
        png_frame_view(r) == png_decoded(bytes@),
        match png_frame_view(r) {
            Some((buf, w, h, c)) => buf.len() >= png_samples(c) * w * h,
            None => true,
        },
{
    let mut decoder = png::Decoder::new(bytes);
    decoder.set_transformations(png::Transformations::normalize_to_color8());
    let mut reader = decoder.read_info().ok()?;
    let mut buf = vec![0u8; reader.output_buffer_size()];
    let info = reader.next_frame(&mut buf).ok()?;
    let color = match info.color_type {
        png::ColorType::Rgba => PngColor::Rgba,
        png::ColorType::Rgb => PngColor::Rgb,
        png::ColorType::GrayscaleAlpha => PngColor::GrayscaleAlpha,
        png::ColorType::Grayscale => PngColor::Grayscale,
        png::ColorType::Indexed => PngColor::Indexed,
    };
    Some((buf, info.width, info.height, color))
}

/// Decodes a JPEG with `jpeg_decoder::Decoder`: the pixels `decode`
/// returns and the width, height and pixel format `info` then reports.
/// `None` when decoding fails. Named, not described, like the PNG frame.
/// The decoder is built with its `platform_independent` feature, which
/// keeps out the CPU-specific routines whose output differs bit for bit,
/// so the result depends on the bytes alone.
#[verifier::external_body]
fn jpeg_frame(bytes: &[u8]) -> (r: Option<(Vec<u8>, u16, u16, JpegFormat)>)
    ensures
        jpeg_frame_view(r) == jpeg_decoded(bytes@),
{
    let mut decoder = jpeg_decoder::Decoder::new(bytes);
    let pixels = decoder.decode().ok()?;
    let info = decoder.info()?;
    let format = match info.pixel_format {
        jpeg_decoder::PixelFormat::RGB24 => JpegFormat::Rgb24,
        jpeg_decoder::PixelFormat::L8 => JpegFormat::L8,
        jpeg_decoder::PixelFormat::L16 => JpegFormat::L16,
        jpeg_decoder::PixelFormat::CMYK32 => JpegFormat::Cmyk32,
    };
    Some((pixels, info.width, info.height, format))
}

/// A decoded image as plain values: RGBA bytes, width, height.
pub open spec fn image_view(r: Option<DecodedImage>) -> Option<(Seq<u8>, u32, u32)> {
    match r {
        Some(img) => Some((img.rgba@, img.width, img.height)),
        None => None,
    }
}

/// The image a PNG frame makes: RGBA frames keep their first
/// `width * height * 4` bytes; RGB and grey frames are expanded to RGBA;
/// palette frames and frames too short for their size give nothing, as
/// does a size whose pixel count does not fit in memory.
pub open spec fn png_image_of(buf: Seq<u8>, width: u32, height: u32, color: PngColor) -> Option<(Seq<u8>, u32, u32)> {
    let pixels = width * height;
    if pixels > usize::MAX {
        None
    } else {
        let rgba = match color {
            PngColor::Rgba => Some(
                if buf.len() <= pixels * 4 {
                    buf
                } else {
                    buf.take(pixels * 4)
                },
            ),
            PngColor::Rgb => expand_of(buf, pixels as nat, PixelLayout::Rgb),
            PngColor::GrayscaleAlpha => expand_of(buf, pixels as nat, PixelLayout::GrayAlpha),
            PngColor::Grayscale => expand_of(buf, pixels as nat, PixelLayout::Gray),
            PngColor::Indexed => None,
        };
        match rgba {
            Some(px) => Some((px, width, height)),
            None => None,
        }
    }
}

/// The image a decoded JPEG makes: RGB and grey become RGBA (16-bit grey
/// keeps the second byte of each sample); CMYK and pixel buffers too
/// short for the size give nothing.
pub open spec fn jpeg_image_of(pixels_in: Seq<u8>, width: u16, height: u16, format: JpegFormat) -> Option<(Seq<u8>, u32, u32)> {
    let pixels = (width * height) as nat;
    let rgba = match format {
        JpegFormat::Rgb24 => expand_of(pixels_in, pixels, PixelLayout::Rgb),
        JpegFormat::L8 => expand_of(pixels_in, pixels, PixelLayout::Gray),
        JpegFormat::L16 => expand_of(pixels_in, pixels, PixelLayout::Gray16),
        JpegFormat::Cmyk32 => None,
    };
    match rgba {
        Some(px) => Some((px, width as u32, height as u32)),
        None => None,
    }
}

/// The image a decoded PNG frame makes.
pub fn png_to_image(buf: Vec<u8>, width: u32, height: u32, color: PngColor) -> (r: Option<DecodedImage>)
    ensures
        image_view(r) == png_image_of(buf@, width, height, color),
{
    let pixels = match (width as usize).checked_mul(height as usize) {
        Some(p) => p,
        None => {
            return None;
        },
    };
    let rgba = match color {
        PngColor::Rgba => {
            let mut buf = buf;
            let len = buf.len();
            match pixels.checked_mul(4) {
                Some(n) => {
                    if n < len {
                        buf.truncate(n);
                    }
                },
                None => {},
            }
            buf
        },
        PngColor::Rgb => match expand(&buf, pixels, PixelLayout::Rgb) {
            Some(v) => v,
            None => {
                return None;
            },
        },
        PngColor::GrayscaleAlpha => match expand(&buf, pixels, PixelLayout::GrayAlpha) {
            Some(v) => v,
            None => {
                return None;
            },
        },
        PngColor::Grayscale => match expand(&buf, pixels, PixelLayout::Gray) {
            Some(v) => v,
            None => {
                return None;
            },
        },
        PngColor::Indexed => {
            return None;
        },
    };
    Some(DecodedImage { rgba, width, height })
}

/// The image a decoded JPEG makes.
pub fn jpeg_to_image(pixels_in: Vec<u8>, width: u16, height: u16, format: JpegFormat) -> (r: Option<DecodedImage>)
    ensures
        image_view(r) == jpeg_image_of(pixels_in@, width, height, format),
{
    let w = width as usize;
    let h = height as usize;
    assert(w * h <= 0xffff * 0xffff) by (nonlinear_arith)
        requires
            w <= 0xffff,
            h <= 0xffff,
    ;
    let pixels = w * h;
    let layout = match format {
        JpegFormat::Rgb24 => PixelLayout::Rgb,
        JpegFormat::L8 => PixelLayout::Gray,
        JpegFormat::L16 => PixelLayout::Gray16,
        JpegFormat::Cmyk32 => {
            return None;
        },
    };
    match expand(&pixels_in, pixels, layout) {
        Some(rgba) => Some(DecodedImage { rgba, width: width as u32, height: height as u32 }),
        None => None,
    }
}

/// Pixel `k` of an expansion is the RGBA of source pixel `k`.
proof fn lemma_expanded_pixel(src: Seq<u8>, layout: PixelLayout, n: nat, k: int, j: int)
    requires
        0 <= k < n,
        0 <= j < 4,
    ensures
        expanded(src, layout, n)[4 * k + j] == pixel_rgba(src, layout, k * stride_of(layout))[j],
    decreases n,
{
    law_expanded_is_four_bytes_a_pixel(src, layout, (n - 1) as nat);
    let prev = expanded(src, layout, (n - 1) as nat);
    let last = pixel_rgba(src, layout, (n - 1) * stride_of(layout));
    assert(expanded(src, layout, n) == prev + last);
    if k < n - 1 {
        lemma_expanded_pixel(src, layout, (n - 1) as nat, k, j);
        assert(4 * k + j < 4 * (n - 1));
    } else {
        assert(4 * k + j - prev.len() == j);
    }
}

/// The RGBA bytes pixel `k` of a decoded JPEG in format `f` should
/// become: a colour pixel keeps its red, green and blue and is opaque; a
/// grey pixel spreads its grey (the second byte of a 16-bit sample) over
/// the three colours and is opaque.
pub open spec fn jpeg_pixel(px: Seq<u8>, f: JpegFormat, k: int) -> Seq<u8> {
    match f {
        JpegFormat::Rgb24 => seq![px[3 * k], px[3 * k + 1], px[3 * k + 2], 255u8],
        JpegFormat::L8 => seq![px[k], px[k], px[k], 255u8],
        JpegFormat::L16 => seq![px[2 * k + 1], px[2 * k + 1], px[2 * k + 1], 255u8],
        JpegFormat::Cmyk32 => seq![],
    }
}

/// The RGBA bytes pixel `k` of a PNG frame of colour type `c` should
/// become: an RGBA pixel as it is; an RGB pixel opaque; a grey pixel
/// spread over the three colours, with its alpha when it has one.
pub open spec fn png_pixel(buf: Seq<u8>, c: PngColor, k: int) -> Seq<u8> {
    match c {
        PngColor::Rgba => seq![buf[4 * k], buf[4 * k + 1], buf[4 * k + 2], buf[4 * k + 3]],
        PngColor::Rgb => seq![buf[3 * k], buf[3 * k + 1], buf[3 * k + 2], 255u8],
        PngColor::GrayscaleAlpha => seq![buf[2 * k], buf[2 * k], buf[2 * k], buf[2 * k + 1]],
        PngColor::Grayscale => seq![buf[k], buf[k], buf[k], 255u8],
        PngColor::Indexed => seq![],
    }
}

/// The bytes one source pixel of a JPEG format takes.
pub open spec fn jpeg_bytes_per_pixel(f: JpegFormat) -> int {
    match f {
        JpegFormat::Rgb24 => 3,
        JpegFormat::L8 => 1,
        JpegFormat::L16 => 2,
        JpegFormat::Cmyk32 => 4,
    }
}

/// What a decoded JPEG becomes, pixel by pixel: each of its `w * h`
/// pixels as `jpeg_pixel` says, four bytes each, at the JPEG's size. CMYK
/// is refused, and so is a buffer too short for its size; nothing else is.
pub proof fn law_jpeg_pixels(px: Seq<u8>, w: u16, h: u16, f: JpegFormat)
    ensures
        ({
            let n = w * h;
            match jpeg_image_of(px, w, h, f) {
                Some((out, w2, h2)) => {
                    &&& f != JpegFormat::Cmyk32
                    &&& w2 == w && h2 == h
                    &&& px.len() >= jpeg_bytes_per_pixel(f) * n
                    &&& out.len() == 4 * n
                    &&& forall|k: int|
                        0 <= k < n ==> out.subrange(4 * k, 4 * k + 4) == #[trigger] jpeg_pixel(px, f, k)
                },
                None => f == JpegFormat::Cmyk32 || px.len() < jpeg_bytes_per_pixel(f) * n,
            }
        }),
{
    let n = (w * h) as nat;
    lemma_jpeg_image_size(px, w, h, f);
    let layout = match f {
        JpegFormat::Rgb24 => PixelLayout::Rgb,
        JpegFormat::L8 => PixelLayout::Gray,
        JpegFormat::L16 => PixelLayout::Gray16,
        JpegFormat::Cmyk32 => PixelLayout::Rgb,
    };
    if f != JpegFormat::Cmyk32 {
        assert(stride_of(layout) * n == n * stride_of(layout)) by (nonlinear_arith);
        if px.len() >= n * stride_of(layout) {
            let out = expanded(px, layout, n);
            law_expanded_is_four_bytes_a_pixel(px, layout, n);
            assert forall|k: int| 0 <= k < n implies out.subrange(4 * k, 4 * k + 4)
                == #[trigger] jpeg_pixel(px, f, k) by {
                lemma_expanded_pixel(px, layout, n, k, 0);
                lemma_expanded_pixel(px, layout, n, k, 1);
                lemma_expanded_pixel(px, layout, n, k, 2);
                lemma_expanded_pixel(px, layout, n, k, 3);
                assert(k * stride_of(layout) == stride_of(layout) * k) by (nonlinear_arith);
                assert(out.subrange(4 * k, 4 * k + 4) =~= jpeg_pixel(px, f, k));
            }
        }
    }
}

/// What a decoded PNG frame becomes, pixel by pixel: each of its `w * h`
/// pixels as `png_pixel` says, at the frame's size; an RGBA frame is
/// also never longer than its pixels and keeps its bytes in place. A
/// palette frame, a size too large for memory and a non-RGBA buffer too
/// short for its size are refused; nothing else is.
pub proof fn law_png_pixels(buf: Seq<u8>, w: u32, h: u32, c: PngColor)
    ensures
        ({
            let n = w * h;
            match png_image_of(buf, w, h, c) {
                Some((out, w2, h2)) => {
                    &&& c != PngColor::Indexed
                    &&& w2 == w && h2 == h
                    &&& c != PngColor::Rgba ==> out.len() == 4 * n
                    &&& c == PngColor::Rgba ==> out.len() <= 4 * n && out == buf.take(out.len() as int)
                    &&& forall|k: int|
                        0 <= k < n && 4 * k + 4 <= out.len() ==> out.subrange(4 * k, 4 * k + 4)
                            == #[trigger] png_pixel(buf, c, k)
                },
                None => c == PngColor::Indexed || n > usize::MAX || (c != PngColor::Rgba && buf.len()
                    < png_samples(c) * n),
            }
        }),
{
    let n = w * h;
    if n <= usize::MAX && c != PngColor::Indexed {
        if c == PngColor::Rgba {
            let out = if buf.len() <= n * 4 { buf } else { buf.take(n * 4) };
            assert(out =~= buf.take(out.len() as int));
            assert forall|k: int| 0 <= k < n && 4 * k + 4 <= out.len() implies out.subrange(4 * k, 4 * k + 4)
                == #[trigger] png_pixel(buf, c, k) by {
                assert(out.subrange(4 * k, 4 * k + 4) =~= png_pixel(buf, c, k));
            }
        } else {
            let layout = match c {
                PngColor::Rgb => PixelLayout::Rgb,
                PngColor::GrayscaleAlpha => PixelLayout::GrayAlpha,
                _ => PixelLayout::Gray,
            };
            let nn = n as nat;
            assert(stride_of(layout) * n == n * stride_of(layout)) by (nonlinear_arith);
            assert(png_samples(c) == stride_of(layout));
            if buf.len() >= nn * stride_of(layout) {
                let out = expanded(buf, layout, nn);
                law_expanded_is_four_bytes_a_pixel(buf, layout, nn);
                assert forall|k: int| 0 <= k < n && 4 * k + 4 <= out.len() implies out.subrange(
                    4 * k,
                    4 * k + 4,
                ) == #[trigger] png_pixel(buf, c, k) by {
                    lemma_expanded_pixel(buf, layout, nn, k, 0);
                    lemma_expanded_pixel(buf, layout, nn, k, 1);
                    lemma_expanded_pixel(buf, layout, nn, k, 2);
                    lemma_expanded_pixel(buf, layout, nn, k, 3);
                    assert(k * stride_of(layout) == stride_of(layout) * k) by (nonlinear_arith);
                    assert(out.subrange(4 * k, 4 * k + 4) =~= png_pixel(buf, c, k));
                }
            }
        }
    }
}

/// The eight bytes every PNG file starts with.
pub open spec fn png_signature() -> Seq<u8> {
    seq![0x89u8, 0x50u8, 0x4Eu8, 0x47u8, 0x0Du8, 0x0Au8, 0x1Au8, 0x0Au8]
}

/// The three bytes every JPEG file starts with.
pub open spec fn jpeg_signature() -> Seq<u8> {
    seq![0xFFu8, 0xD8u8, 0xFFu8]
}

/// `bytes` starts with `magic`.
pub open spec fn has_magic(bytes: Seq<u8>, magic: Seq<u8>) -> bool {
    magic.len() <= bytes.len() && bytes.take(magic.len() as int) == magic
}

/// What decoding `bytes` gives: a PNG by its signature, else a JPEG by
/// its signature, else nothing; each through its decoder.
pub open spec fn decode_of(bytes: Seq<u8>) -> Option<(Seq<u8>, u32, u32)> {
    if has_magic(bytes, png_signature()) {
        match png_decoded(bytes) {
            Some((buf, w, h, c)) => png_image_of(buf, w, h, c),
            None => None,
        }
    } else if has_magic(bytes, jpeg_signature()) {
        match jpeg_decoded(bytes) {
            Some((px, w, h, f)) => jpeg_image_of(px, w, h, f),
            None => None,
        }
    } else {
        None
    }
}

/// Whether `bytes` starts with the bytes of `magic`.
fn starts_with_bytes(bytes: &[u8], magic: &[u8]) -> (b: bool)
    ensures
        b == has_magic(bytes@, magic@),
{
    if magic.len() > bytes.len() {
        return false;
    }
    let mut i: usize = 0;
    while i < magic.len()
        invariant
            magic@.len() <= bytes@.len(),
            i <= magic@.len(),
            forall|j: int| 0 <= j < i ==> bytes@[j] == magic@[j],
        decreases magic@.len() - i,
    {
        if bytes[i] != magic[i] {
            proof {
                assert(bytes@.take(magic@.len() as int)[i as int] != magic@[i as int]);
            }
            return false;
        }
        i = i + 1;
    }
    proof {
        assert(bytes@.take(magic@.len() as int) =~= magic@);
    }
    true
}

/// A PNG frame whose buffer holds the whole frame makes an image of
/// exactly four bytes a pixel.
proof fn lemma_png_image_size(buf: Seq<u8>, w: u32, h: u32, c: PngColor)
    requires
        buf.len() >= png_samples(c) * w * h,
    ensures
        match png_image_of(buf, w, h, c) {
            Some((px, w2, h2)) => px.len() == 4 * w2 * h2,
            None => true,
        },
{
    let pixels = w * h;
    assert(png_samples(c) * w * h == png_samples(c) * (w * h)) by (nonlinear_arith);
    assert(4 * w * h == (w * h) * 4) by (nonlinear_arith);
    if pixels <= usize::MAX {
        match c {
            PngColor::Rgba => {
                assert(buf.take(pixels * 4).len() == pixels * 4);
            },
            PngColor::Rgb => law_expanded_is_four_bytes_a_pixel(buf, PixelLayout::Rgb, pixels as nat),
            PngColor::GrayscaleAlpha => law_expanded_is_four_bytes_a_pixel(buf, PixelLayout::GrayAlpha, pixels as nat),
            PngColor::Grayscale => law_expanded_is_four_bytes_a_pixel(buf, PixelLayout::Gray, pixels as nat),
            PngColor::Indexed => {},
        }
    }
}

/// A decoded JPEG makes an image of exactly four bytes a pixel.
proof fn lemma_jpeg_image_size(px: Seq<u8>, w: u16, h: u16, f: JpegFormat)
    ensures
        match jpeg_image_of(px, w, h, f) {
            Some((out, w2, h2)) => out.len() == 4 * w2 * h2,
            None => true,
        },
{
    let pixels = (w * h) as nat;
    assert(4 * (w as u32) * (h as u32) == 4 * (w * h)) by (nonlinear_arith);
    match f {
        JpegFormat::Rgb24 => law_expanded_is_four_bytes_a_pixel(px, PixelLayout::Rgb, pixels),
        JpegFormat::L8 => law_expanded_is_four_bytes_a_pixel(px, PixelLayout::Gray, pixels),
        JpegFormat::L16 => law_expanded_is_four_bytes_a_pixel(px, PixelLayout::Gray16, pixels),
        JpegFormat::Cmyk32 => {},
    }
}

/// Decodes a PNG or JPEG file into straight RGBA; anything else, and
/// anything its decoder rejects, gives `None`. An image always holds four
/// bytes for each of its pixels.
pub fn decode(bytes: &[u8]) -> (r: Option<DecodedImage>)
    ensures
        image_view(r) == decode_of(bytes@),
        match r {
            Some(img) => img.rgba@.len() == 4 * img.width * img.height,
            None => true,
        },
{
    let png_magic: [u8; 8] = [0x89, 0x50, 0x4E, 0x47, 0x0D, 0x0A, 0x1A, 0x0A];
    let jpeg_magic: [u8; 3] = [0xFF, 0xD8, 0xFF];
    proof {
        assert(png_magic@ =~= png_signature());
        assert(jpeg_magic@ =~= jpeg_signature());
    }
    if starts_with_bytes(bytes, png_magic.as_slice()) {
        match png_frame(bytes) {
            Some((buf, w, h, c)) => {
                proof {
                    lemma_png_image_size(buf@, w, h, c);
                }
                png_to_image(buf, w, h, c)
            },
            None => None,
        }
    } else if starts_with_bytes(bytes, jpeg_magic.as_slice()) {
        match jpeg_frame(bytes) {
            Some((px, w, h, f)) => {
                proof {
                    lemma_jpeg_image_size(px@, w, h, f);
                }
                jpeg_to_image(px, w, h, f)
            },
            None => None,
        }
    } else {
        None
    }
}

} // verus!
