//! The image decoders and encoders that the library relies on.
//!
//! Everything in this file is believed, not proved: each function hands
//! its arguments to a codec of another crate and hands the answer back.
//! The contracts state the little that the callers build on and that the
//! sources of those crates show. Pixel data comes back as a `RawImage`.

use vstd::prelude::*;

verus! {

/// An image as a codec takes it or hands it out: RGBA, 8 bits per
/// channel, row by row. The type itself says nothing of how the length of
/// `pixels` relates to the size.
#[derive(Debug)]
pub struct RawImage {
    pub width: u32,
    pub height: u32,
    pub pixels: Vec<u8>,
}

/// The parsed directory of an icon container (`ico::IconDir`).
#[verifier::external_type_specification]
#[verifier::external_body]
pub struct ExIconDir(ico::IconDir);

/// A parsed vector document (`usvg::Tree`).
#[verifier::external_type_specification]
#[verifier::external_body]
pub struct ExSvgTree(resvg::usvg::Tree);

/// Width and height of each entry of an icon container, in the order of
/// the container.
pub uninterp spec fn ico_sizes(dir: ico::IconDir) -> Seq<(u32, u32)>;

/// Size and pixels of an image as a codec hands them out.
pub open spec fn raw_view(image: RawImage) -> (u32, u32, Seq<u8>) {
    (image.width, image.height, image.pixels@)
}

/// What decoding the entry at `index` of an icon container gives: size and
/// pixels, or nothing where the entry does not decode.
pub uninterp spec fn ico_image(dir: ico::IconDir, index: int) -> Option<(u32, u32, Seq<u8>)>;

/// What decoding the entry at `index` of the icon container in the bytes
/// of a file gives.
pub uninterp spec fn ico_file_image(bytes: Seq<u8>, index: int) -> Option<(u32, u32, Seq<u8>)>;

/// What decoding the bytes of a file as a raster image in the format of an
/// extension (in lower case) gives: size and pixels, or nothing where the
/// bytes do not decode.
pub uninterp spec fn raster_image(bytes: Seq<u8>, extension: Seq<char>) -> Option<
    (u32, u32, Seq<u8>),
>;

/// The bytes of the PNG file of an image, or nothing where the encoder
/// refuses the image.
pub uninterp spec fn png_file(width: u32, height: u32, pixels: Seq<u8>) -> Option<Seq<u8>>;

/// The largest width and height of an entry of an icon container that
/// `ico_decode` takes, and the largest number of bytes of its pixels.
pub open spec fn ico_size_decodes(size: (u32, u32)) -> bool {
    size.0 <= 0xffff && size.1 <= 0xffff && 4 * size.0 * size.1 <= u32::MAX
}

/// The ways of weighing the pixels of the source that `image_resize`
/// knows (`image::imageops::FilterType`).
#[derive(Copy, Clone, PartialEq, Eq, Debug, Structural)]
pub enum ResizeFilter {
    Nearest,
    Triangle,
    CatmullRom,
    Gaussian,
    Lanczos3,
}

/// The image `outcome` is one that resizing `source` to fill the given
/// width and height, with the given filter, may hand out. This is a
/// relation and no function: the weights of some filters come from the
/// sine of the machine, so the pixels of the outcome may differ from one
/// machine to the next.
pub uninterp spec fn resize_outcome(
    filter: ResizeFilter,
    source: (u32, u32, Seq<u8>),
    width: u32,
    height: u32,
    outcome: (u32, u32, Seq<u8>),
) -> bool;

/// The largest width or height that `image_resize` resizes to.
pub const MAX_RESIZE: u32 = 0xffff;

/// The sizes for which `image_resize` is known to give the size asked
/// for.
pub open spec fn resize_is_exact(source: (u32, u32), width: u32, height: u32) -> bool {
    &&& 1 <= source.0 <= 0xffff
    &&& 1 <= source.1 <= 0xffff
    &&& 1 <= width <= 0xffff
    &&& width == height
}

/// What reading the bytes of a file as an icon container gives: width and
/// height of each entry, in order, or nothing where the bytes are no
/// container.
pub uninterp spec fn ico_directory(bytes: Seq<u8>) -> Option<Seq<(u32, u32)>>;

/// The lower-case form of an ASCII letter; any other character as it is.
pub open spec fn ascii_lower(c: char) -> char {
    if 'A' <= c && c <= 'Z' {
        ((c as u32) + 32) as char
    } else {
        c
    }
}

/// A text with its ASCII letters in lower case.
pub open spec fn ascii_lowered(text: Seq<char>) -> Seq<char> {
    Seq::new(text.len(), |i: int| ascii_lower(text[i]))
}

/// The file extensions, in any mix of upper and lower case, by which the
/// `image` crate knows a raster format.
pub open spec fn is_image_extension(extension: Seq<char>) -> bool {
    let e = ascii_lowered(extension);
    ||| e == "avif"@
    ||| e == "jpg"@
    ||| e == "jpeg"@
    ||| e == "jfif"@
    ||| e == "png"@
    ||| e == "apng"@
    ||| e == "gif"@
    ||| e == "webp"@
    ||| e == "tif"@
    ||| e == "tiff"@
    ||| e == "tga"@
    ||| e == "dds"@
    ||| e == "bmp"@
    ||| e == "ico"@
    ||| e == "hdr"@
    ||| e == "exr"@
    ||| e == "pbm"@
    ||| e == "pam"@
    ||| e == "ppm"@
    ||| e == "pgm"@
    ||| e == "pnm"@
    ||| e == "ff"@
    ||| e == "qoi"@
}

/// The largest width or height of a canvas that `svg_draw` accepts.
pub const MAX_CANVAS: u32 = 429_496_729;

/// `usvg::Tree::from_str` with default options: the parsed document, or
/// the parser's message. Nothing is claimed of which texts parse.
#[verifier::external_body]
pub(crate) fn svg_parse(text: &str) -> (r: Result<resvg::usvg::Tree, String>) {
    match resvg::usvg::Tree::from_str(text, &resvg::usvg::Options::default()) {
        Ok(tree) => Ok(tree),
        Err(error) => Err(error.to_string()),
    }
}

/// `usvg::Tree::size`: width and height of the document, each cut down to
/// a whole number. Nothing is claimed of the two numbers.
#[verifier::external_body]
pub(crate) fn svg_canvas(tree: &resvg::usvg::Tree) -> (r: (u32, u32)) {
    let size = tree.size();
    (size.width() as u32, size.height() as u32)
}

/// `resvg::render` onto a fresh, transparent `tiny_skia::Pixmap` of the
/// given size, without a transform. The result is `None` where the pixmap
/// cannot be had; a pixmap that is had has the size asked for and a buffer
/// of four bytes for each pixel. The bound on the size keeps the
/// renderer's clip rectangle, five times as wide and as high as the
/// canvas, within the range of its coordinates.
#[verifier::external_body]
pub(crate) fn svg_draw(tree: &resvg::usvg::Tree, width: u32, height: u32) -> (r: Option<RawImage>)
    requires
        width <= MAX_CANVAS,
        height <= MAX_CANVAS,
    ensures
        r matches Some(image) ==> image.width == width && image.height == height
            && image.pixels@.len() == 4 * width * height,
{
    let mut pixmap = resvg::tiny_skia::Pixmap::new(width, height)?;
    resvg::render(tree, resvg::tiny_skia::Transform::identity(), &mut pixmap.as_mut());
    Some(RawImage { width: pixmap.width(), height: pixmap.height(), pixels: pixmap.take() })
}

/// `ico::IconDir::read` on the bytes of a file: the directory of the
/// container, or the reader's message. The reader looks at the bytes and
/// at nothing else, so what it gives has a name; nothing is claimed of
/// which bytes it reads.
#[verifier::external_body]
pub(crate) fn ico_read(bytes: &[u8]) -> (r: Result<ico::IconDir, String>)
    ensures
        match r {
            Ok(dir) => ico_directory(bytes@) == Some(ico_sizes(dir)) && forall|index: int|
                #[trigger] ico_image(dir, index) == ico_file_image(bytes@, index),
            Err(_) => ico_directory(bytes@) is None,
        },
{
    match ico::IconDir::read(std::io::Cursor::new(bytes)) {
        Ok(dir) => Ok(dir),
        Err(error) => Err(error.to_string()),
    }
}

/// `ico::IconDir::entries`, each entry by its `width` and `height`.
#[verifier::external_body]
pub(crate) fn ico_entry_sizes(dir: &ico::IconDir) -> (r: Vec<(u32, u32)>)
    ensures
        r@ == ico_sizes(*dir),
{
    dir.entries().iter().map(|entry| (entry.width(), entry.height())).collect()
}

/// `ico::IconDirEntry::decode` on the entry at `index`: its pixels, or the
/// decoder's message. The decoder looks at the entry and at nothing else,
/// so what it gives has a name. It refuses an image whose size is not the
/// size that the entry states, so a decoded image has that size, and its
/// buffer holds four bytes for each pixel. It trusts the size in its
/// arithmetic on 32 bits: the bound on the size keeps that arithmetic
/// within range.
#[verifier::external_body]
pub(crate) fn ico_decode(dir: &ico::IconDir, index: usize) -> (r: Result<RawImage, String>)
    requires
        index < ico_sizes(*dir).len(),
        ico_size_decodes(ico_sizes(*dir)[index as int]),
    ensures
        match r {
            Ok(image) => ico_image(*dir, index as int) == Some(raw_view(image)),
            Err(_) => ico_image(*dir, index as int) is None,
        },
        r matches Ok(image) ==> (image.width, image.height) == ico_sizes(*dir)[index as int]
            && image.pixels@.len() == 4 * image.width * image.height,
{
    match dir.entries()[index].decode() {
        Ok(image) => Ok(
            RawImage {
                width: image.width(),
                height: image.height(),
                pixels: image.rgba_data().to_vec(),
            },
        ),
        Err(error) => Err(error.to_string()),
    }
}

/// `image::load_from_memory_with_format`, in the format that
/// `image::ImageFormat::from_extension` gives for the extension, converted
/// to RGBA. There is a format, and so an answer, exactly for the
/// extensions of a fixed list, in any mix of upper and lower case. The
/// answer is the pixels of the image, four bytes for each pixel, or the
/// decoder's message; the decoder looks at the bytes and the format and at
/// nothing else, so what it gives has a name. Nothing is claimed of which
/// bytes decode.
#[verifier::external_body]
pub(crate) fn image_decode(bytes: &[u8], extension: &str) -> (r: Option<Result<RawImage, String>>)
    ensures
        r is Some <==> is_image_extension(extension@),
        r matches Some(outcome) ==> match outcome {
            Ok(image) => raster_image(bytes@, ascii_lowered(extension@)) == Some(raw_view(image)),
            Err(_) => raster_image(bytes@, ascii_lowered(extension@)) is None,
        },
        r matches Some(Ok(image)) ==> image.pixels@.len() == 4 * image.width * image.height,
{
    let format = image::ImageFormat::from_extension(extension)?;
    Some(
        match image::load_from_memory_with_format(bytes, format) {
            Ok(image) => {
                let rgba = image.into_rgba8();
                Ok(RawImage { width: rgba.width(), height: rgba.height(), pixels: rgba.into_raw() })
            },
            Err(error) => Err(error.to_string()),
        },
    )
}

/// `image::DynamicImage::resize_to_fill` with the filter asked for. The
/// result is `None` exactly where the buffer is too short for the size of
/// the source. An image that comes back is one that the resize may hand
/// out, and its buffer holds four bytes for each pixel. For a source and a
/// square target of no more than 65535 pixels a side it has the size asked
/// for. The bound on the target keeps the sizes of the buffers in between
/// within range.
#[verifier::external_body]
pub(crate) fn image_resize(source: RawImage, width: u32, height: u32, filter: ResizeFilter) -> (r: Option<RawImage>)
    requires
        source.width >= 1,
        source.height >= 1,
        1 <= width <= MAX_RESIZE,
        1 <= height <= MAX_RESIZE,
    ensures
        r is Some <==> source.pixels@.len() >= 4 * source.width * source.height,
        r matches Some(image) ==> resize_outcome(filter, raw_view(source), width, height, raw_view(image))
            && image.pixels@.len() == 4 * image.width * image.height,
        r matches Some(image) ==> (resize_is_exact((source.width, source.height), width, height)
            ==> image.width == width && image.height == height),
{
    let buffer = image::RgbaImage::from_raw(source.width, source.height, source.pixels)?;
    let kind = match filter {
        ResizeFilter::Nearest => image::imageops::FilterType::Nearest,
        ResizeFilter::Triangle => image::imageops::FilterType::Triangle,
        ResizeFilter::CatmullRom => image::imageops::FilterType::CatmullRom,
        ResizeFilter::Gaussian => image::imageops::FilterType::Gaussian,
        ResizeFilter::Lanczos3 => image::imageops::FilterType::Lanczos3,
    };
    let resized = image::DynamicImage::ImageRgba8(buffer).resize_to_fill(width, height, kind).into_rgba8();
    Some(RawImage { width: resized.width(), height: resized.height(), pixels: resized.into_raw() })
}

/// `image::DynamicImage::write_to` in the PNG format, into memory: the
/// bytes of the file, or `None` where the encoder fails. The encoder looks
/// at the image and at nothing else, so what it gives has a name. It takes
/// a buffer of exactly the size of the image, which the caller owes.
#[verifier::external_body]
pub(crate) fn png_encode(source: RawImage) -> (r: Option<Vec<u8>>)
    requires
        source.pixels@.len() == 4 * source.width * source.height,
    ensures
        match r {
            Some(bytes) => png_file(source.width, source.height, source.pixels@) == Some(bytes@),
            None => png_file(source.width, source.height, source.pixels@) is None,
        },
{
    let buffer = image::RgbaImage::from_raw(source.width, source.height, source.pixels)?;
    let mut out = std::io::Cursor::new(Vec::new());
    image::DynamicImage::ImageRgba8(buffer).write_to(&mut out, image::ImageFormat::Png).ok()?;
    Some(out.into_inner())
}

} // verus!
