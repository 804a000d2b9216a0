//! From the content of an icon file to the canonical raster: decode by
//! format, resize to the canonical size, encode as PNG.

use crate::codecs::{
    ascii_lowered, ico_decode, ico_directory, ico_entry_sizes, ico_file_image, ico_image, ico_read,
    ico_size_decodes, ico_sizes, image_decode, image_resize, is_image_extension, png_encode,
    png_file, raster_image, raw_view, resize_is_exact, resize_outcome, svg_canvas, svg_draw,
    svg_parse, RawImage, ResizeFilter, MAX_CANVAS,
};
use crate::path::{path_extension, path_extension_spec};
use vstd::prelude::*;

verus! {

/// Width and height, in pixels, of every rendered icon.
pub const ICON_SIZE: u32 = 32;

/// How the pixels of a decoded image are weighed when it is brought to
/// the canonical size.
pub const ICON_FILTER: ResizeFilter = ResizeFilter::Lanczos3;

/// How the content of an icon file is to be read, by the extension of its
/// path.
#[derive(Copy, Clone, PartialEq, Eq, Debug, Structural)]
pub enum IconFormat {
    /// A vector document (`svg`).
    Svg,
    /// A container of images at several sizes (`ico`).
    Ico,
    /// Anything else: a raster image in the format that goes by the
    /// extension.
    Raster,
}

/// The content of an icon file.
#[derive(Debug)]
pub enum IconSource {
    /// The text of a vector document.
    Svg(String),
    /// The bytes of an icon container.
    Ico(Vec<u8>),
    /// The bytes of a raster image, with the extension of its path.
    Raster { bytes: Vec<u8>, extension: String },
}

/// Why an icon could not be rendered.
#[derive(Debug, PartialEq, Eq)]
pub enum RenderError {
    /// The vector document does not parse; with the parser's message.
    SvgParse(String),
    /// The vector document asks for a canvas without area, or for one that
    /// cannot be had.
    SvgCanvas { width: u32, height: u32 },
    /// The icon container cannot be read; with the reader's message.
    IcoRead(String),
    /// The icon container holds no image.
    IcoEmpty,
    /// The chosen image of the icon container states a size that is too
    /// large to decode.
    IcoSize { width: u32, height: u32 },
    /// The chosen image of the icon container does not decode; with the
    /// decoder's message.
    IcoDecode(String),
    /// No raster format goes by the extension.
    UnknownFormat,
    /// The raster image does not decode; with the decoder's message.
    Decode(String),
    /// The decoded image has no area.
    EmptyImage,
    /// Resizing did not give an image of the canonical size.
    Resize,
    /// The canonical raster could not be encoded.
    Encode,
}

/// A raster image: RGBA, 8 bits per channel, row by row.
#[derive(Debug)]
pub struct Raster {
    pub width: u32,
    pub height: u32,
    pub pixels: Vec<u8>,
}

/// A rendered icon.
#[derive(Debug)]
pub struct RenderedIcon {
    /// The icon at the canonical size.
    pub image: Raster,
    /// The same as the bytes of a PNG file.
    pub png: Vec<u8>,
    /// Whether the source was smaller than the canonical size in width or
    /// height, so that it had to be scaled up.
    pub upscaled: bool,
}

/// The longer side of an image size.
pub open spec fn longer_side(size: (u32, u32)) -> int {
    if size.0 >= size.1 {
        size.0 as int
    } else {
        size.1 as int
    }
}

/// How far the longer side of a size is from the wanted size.
pub open spec fn distance(size: (u32, u32), target: u32) -> int {
    if longer_side(size) >= target {
        longer_side(size) - target
    } else {
        target - longer_side(size)
    }
}

/// The entry at `at` is the first of those whose size is closest to the
/// wanted size.
pub open spec fn is_closest(sizes: Seq<(u32, u32)>, at: int, target: u32) -> bool {
    &&& 0 <= at < sizes.len()
    &&& forall|j: int|
        0 <= j < sizes.len() ==> distance(sizes[at], target) <= distance(#[trigger] sizes[j], target)
    &&& forall|j: int|
        0 <= j < at ==> distance(sizes[at], target) < distance(#[trigger] sizes[j], target)
}

/// An image of this size has to be scaled up to reach the canonical size.
pub open spec fn needs_upscale(width: u32, height: u32) -> bool {
    width < ICON_SIZE || height < ICON_SIZE
}

/// The format that goes by the extension of a path.
pub open spec fn format_of(path: Seq<char>) -> IconFormat {
    if path_extension_spec(path) == "svg"@ {
        IconFormat::Svg
    } else if path_extension_spec(path) == "ico"@ {
        IconFormat::Ico
    } else {
        IconFormat::Raster
    }
}

/// The position of the first entry whose size is closest to the wanted
/// size.
pub open spec fn closest_index(sizes: Seq<(u32, u32)>, target: u32) -> int {
    choose|at: int| is_closest(sizes, at, target)
}

/// There is one first closest entry.
pub proof fn lemma_closest_unique(sizes: Seq<(u32, u32)>, a: int, b: int, target: u32)
    requires
        is_closest(sizes, a, target),
    ensures
        is_closest(sizes, b, target) ==> a == b,
        closest_index(sizes, target) == a,
{
    if is_closest(sizes, b, target) {
        if a < b {
            assert(distance(sizes[b], target) < distance(sizes[a], target));
            assert(distance(sizes[a], target) <= distance(sizes[b], target));
        }
        if b < a {
            assert(distance(sizes[a], target) < distance(sizes[b], target));
            assert(distance(sizes[b], target) <= distance(sizes[a], target));
        }
    }
    let c = closest_index(sizes, target);
    assert(is_closest(sizes, c, target));
    if a < c {
        assert(distance(sizes[c], target) < distance(sizes[a], target));
        assert(distance(sizes[a], target) <= distance(sizes[c], target));
    }
    if c < a {
        assert(distance(sizes[a], target) < distance(sizes[c], target));
        assert(distance(sizes[c], target) <= distance(sizes[a], target));
    }
}

/// The result is the raster of a decoded image: the same size, the same
/// pixels, four bytes for each.
pub open spec fn image_is(r: Result<Raster, RenderError>, raw: (u32, u32, Seq<u8>)) -> bool {
    &&& r matches Ok(image)
    &&& image.wf()
    &&& image@ == raw
}

/// What a raster image with these bytes and this extension becomes. An
/// extension that names no raster format is refused; bytes that do not
/// decode in the format of the extension are an error; any other bytes
/// give the decoded image.
pub open spec fn raster_rendered(r: Result<Raster, RenderError>, bytes: Seq<u8>, extension: Seq<char>) -> bool {
    if !is_image_extension(extension) {
        r matches Err(RenderError::UnknownFormat)
    } else {
        match raster_image(bytes, ascii_lowered(extension)) {
            Some(raw) => image_is(r, raw),
            None => r matches Err(RenderError::Decode(_)),
        }
    }
}

/// What an icon container with entries of these sizes becomes, where
/// `image` is what decoding its first entry closest to the canonical size
/// gives. A container without entry is refused, and so is one whose chosen
/// entry is too large to decode; an entry that does not decode is an
/// error; any other gives the decoded image.
pub open spec fn container_rendered(
    r: Result<Raster, RenderError>,
    sizes: Seq<(u32, u32)>,
    image: Option<(u32, u32, Seq<u8>)>,
) -> bool {
    if sizes.len() == 0 {
        r matches Err(RenderError::IcoEmpty)
    } else {
        let size = sizes[closest_index(sizes, ICON_SIZE)];
        if !ico_size_decodes(size) {
            r matches Err(RenderError::IcoSize { width, height }) && width == size.0 && height
                == size.1
        } else {
            match image {
                Some(raw) => image_is(r, raw) && raw.0 == size.0 && raw.1 == size.1,
                None => r matches Err(RenderError::IcoDecode(_)),
            }
        }
    }
}

/// What the content of an icon file becomes. Of a vector document only
/// the bounds of its canvas and its errors are known: the parser may read
/// files that the document names.
pub open spec fn source_rendered(r: Result<Raster, RenderError>, source: IconSource) -> bool {
    match source {
        IconSource::Svg(_) => match r {
            Ok(image) => image.wf() && 1 <= image.width <= MAX_CANVAS && 1 <= image.height
                <= MAX_CANVAS,
            Err(e) => e is SvgParse || e is SvgCanvas,
        },
        IconSource::Ico(bytes) => match ico_directory(bytes@) {
            Some(sizes) => container_rendered(
                r,
                sizes,
                ico_file_image(bytes@, closest_index(sizes, ICON_SIZE)),
            ),
            None => r matches Err(RenderError::IcoRead(_)),
        },
        IconSource::Raster { bytes, extension } => raster_rendered(r, bytes@, extension@),
    }
}

/// The image that a source decodes to, as far as that is a matter of the
/// source alone: outside `None` where it is not (a vector document, whose
/// parser may read other files), inside `None` where the source does not
/// decode.
pub open spec fn decoding(source: IconSource) -> Option<Option<(u32, u32, Seq<u8>)>> {
    match source {
        IconSource::Svg(_) => None,
        IconSource::Ico(bytes) => Some(
            match ico_directory(bytes@) {
                Some(sizes) => if sizes.len() == 0 || !ico_size_decodes(
                    sizes[closest_index(sizes, ICON_SIZE)],
                ) {
                    None
                } else {
                    ico_file_image(bytes@, closest_index(sizes, ICON_SIZE))
                },
                None => None,
            },
        ),
        IconSource::Raster { bytes, extension } => Some(
            if is_image_extension(extension@) {
                raster_image(bytes@, ascii_lowered(extension@))
            } else {
                None
            },
        ),
    }
}

/// The image is one that the source may decode to: the image that it
/// decodes to, where that is a matter of the source alone; for a vector
/// document any image of a size that a canvas can have.
pub open spec fn may_decode_to(source: IconSource, raw: (u32, u32, Seq<u8>)) -> bool {
    match decoding(source) {
        Some(image) => image == Some(raw),
        None => canvas_draws(raw.0, raw.1),
    }
}

/// The icon is what one of the images that the source may decode to
/// becomes when it is brought to the canonical size.
pub open spec fn is_resized_from(source: IconSource, icon: RenderedIcon) -> bool {
    exists|raw: (u32, u32, Seq<u8>)|
        {
            &&& may_decode_to(source, raw)
            &&& raw.2.len() == 4 * raw.0 * raw.1
            &&& icon.upscaled == needs_upscale(raw.0, raw.1)
            &&& #[trigger] resize_outcome(
                ICON_FILTER,
                raw,
                ICON_SIZE,
                ICON_SIZE,
                (ICON_SIZE, ICON_SIZE, icon.image.pixels@),
            )
        }
}

/// The encoder refuses some raster of the canonical size.
pub open spec fn encoder_refuses() -> bool {
    exists|pixels: Seq<u8>|
        pixels.len() == 4 * ICON_SIZE * ICON_SIZE && (#[trigger] png_file(
            ICON_SIZE,
            ICON_SIZE,
            pixels,
        )) is None
}

/// A size with area that is within the range for which resizing is known
/// to give the canonical size.
pub open spec fn resizes(width: u32, height: u32) -> bool {
    1 <= width <= 0xffff && 1 <= height <= 0xffff
}

/// The canvas of a vector document can be drawn: it has area and is no
/// larger than a canvas can be.
pub open spec fn canvas_draws(width: u32, height: u32) -> bool {
    1 <= width <= MAX_CANVAS && 1 <= height <= MAX_CANVAS
}

/// The source is a raster image whose extension names no raster format.
pub open spec fn format_unknown(source: IconSource) -> bool {
    source matches IconSource::Raster { extension, .. } && !is_image_extension(extension@)
}

/// The source is an icon container that cannot be read.
pub open spec fn container_unreadable(source: IconSource) -> bool {
    source matches IconSource::Ico(bytes) && ico_directory(bytes@) is None
}

/// The source is an icon container that holds no image.
pub open spec fn container_empty(source: IconSource) -> bool {
    source matches IconSource::Ico(bytes) && ico_directory(bytes@) == Some(
        Seq::<(u32, u32)>::empty(),
    )
}

/// The size is that of the first entry closest to the canonical size.
pub open spec fn is_closest_size(sizes: Seq<(u32, u32)>, width: u32, height: u32) -> bool {
    exists|at: int| is_closest(sizes, at, ICON_SIZE) && (width, height) == #[trigger] sizes[at]
}

/// What the size of a decoded source is known to be before the decoder
/// has run. A vector document gives a canvas with area, no larger than a
/// canvas can be. An icon container gives an image of the size of its
/// entry that is closest to the canonical size, the first of these.
/// Nothing is known of the size of a raster image.
pub open spec fn fits_source(source: IconSource, width: u32, height: u32) -> bool {
    match source {
        IconSource::Svg(_) => canvas_draws(width, height),
        IconSource::Ico(bytes) => match ico_directory(bytes@) {
            Some(sizes) => is_closest_size(sizes, width, height),
            None => false,
        },
        IconSource::Raster { .. } => true,
    }
}

/// The errors that decoding a source of this form can end in.
pub open spec fn decode_error_of(source: IconSource, e: RenderError) -> bool {
    match source {
        IconSource::Svg(_) => e is SvgParse || e is SvgCanvas,
        IconSource::Ico(_) => e is IcoRead || e is IcoEmpty || e is IcoSize || e is IcoDecode,
        IconSource::Raster { .. } => e is UnknownFormat || e is Decode,
    }
}

impl View for Raster {
    type V = (u32, u32, Seq<u8>);

    open spec fn view(&self) -> (u32, u32, Seq<u8>) {
        (self.width, self.height, self.pixels@)
    }
}

impl Raster {
    /// The buffer holds four bytes for each pixel and nothing else.
    pub open spec fn wf(&self) -> bool {
        self.pixels@.len() == 4 * self.width * self.height
    }

    /// The raster of an image, if its buffer holds four bytes for each
    /// pixel and nothing else.
    pub fn from_raw(raw: RawImage) -> (r: Option<Raster>)
        ensures
            r is Some <==> raw.pixels@.len() == 4 * raw.width * raw.height,
            r matches Some(raster) ==> raster.wf() && raster@ == raw_view(raw),
    {
        assert(4 * (raw.width as int) * (raw.height as int) <= 4 * 0xffff_ffff * 0xffff_ffff)
            by (nonlinear_arith)
            requires
                0 <= raw.width <= 0xffff_ffff,
                0 <= raw.height <= 0xffff_ffff,
        ;
        let needed: u128 = 4 * (raw.width as u128) * (raw.height as u128);
        if (raw.pixels.len() as u128) != needed {
            return None;
        }
        Some(Raster::whole(raw))
    }

    /// The raster of an image whose buffer holds four bytes for each
    /// pixel and nothing else.
    pub fn whole(raw: RawImage) -> (r: Raster)
        requires
            raw.pixels@.len() == 4 * raw.width * raw.height,
        ensures
            r.wf(),
            r@ == raw_view(raw),
    {
        Raster { width: raw.width, height: raw.height, pixels: raw.pixels }
    }

    /// The same image as a codec takes it.
    pub fn to_raw(&self) -> (r: RawImage)
        ensures
            r.width == self.width,
            r.height == self.height,
            r.pixels@ == self.pixels@,
    {
        RawImage { width: self.width, height: self.height, pixels: self.pixels.clone() }
    }
}

/// The format that goes by the extension of a path.
pub fn icon_format(path: &str) -> (r: IconFormat)
    ensures
        r == format_of(path@),
{
    let extension = path_extension(path);
    let svg: String = "svg".to_owned();
    let ico: String = "ico".to_owned();
    if extension == svg {
        IconFormat::Svg
    } else if extension == ico {
        IconFormat::Ico
    } else {
        IconFormat::Raster
    }
}

fn size_distance(size: (u32, u32), target: u32) -> (r: u32)
    ensures
        r == distance(size, target),
{
    let longer: u32 = if size.0 >= size.1 {
        size.0
    } else {
        size.1
    };
    if longer >= target {
        longer - target
    } else {
        target - longer
    }
}

/// The position of the first entry whose longer side is closest to the
/// wanted size; none where there is no entry.
pub fn closest_entry(sizes: &Vec<(u32, u32)>, target: u32) -> (r: Option<usize>)
    ensures
        match r {
            Some(at) => is_closest(sizes@, at as int, target) && at == closest_index(sizes@, target),
            None => sizes@.len() == 0,
        },
{
    if sizes.len() == 0 {
        return None;
    }
    let mut best: usize = 0;
    let mut best_distance: u32 = size_distance(sizes[0], target);
    let mut i: usize = 1;
    while i < sizes.len()
        invariant
            1 <= i <= sizes.len(),
            best < i,
            best_distance == distance(sizes@[best as int], target),
            forall|j: int| 0 <= j < i ==> best_distance <= distance(#[trigger] sizes@[j], target),
            forall|j: int| 0 <= j < best ==> best_distance < distance(#[trigger] sizes@[j], target),
        decreases sizes.len() - i,
    {
        let d: u32 = size_distance(sizes[i], target);
        if d < best_distance {
            best = i;
            best_distance = d;
        }
        i += 1;
    }
    proof {
        lemma_closest_unique(sizes@, best as int, best as int, target);
    }
    Some(best)
}

/// Whether a canvas of this size can be drawn; the error names the size.
pub fn check_canvas(width: u32, height: u32) -> (r: Result<(), RenderError>)
    ensures
        r is Ok <==> canvas_draws(width, height),
        r matches Err(e) ==> e == (RenderError::SvgCanvas { width, height }),
{
    if width == 0 || height == 0 || width > MAX_CANVAS || height > MAX_CANVAS {
        Err(RenderError::SvgCanvas { width, height })
    } else {
        Ok(())
    }
}

/// Whether an entry of an icon container of this size can be decoded; the
/// error names the size.
pub fn check_entry_size(size: (u32, u32)) -> (r: Result<(), RenderError>)
    ensures
        r is Ok <==> ico_size_decodes(size),
        r matches Err(e) ==> e == (RenderError::IcoSize { width: size.0, height: size.1 }),
{
    if size.0 <= 0xffff && size.1 <= 0xffff {
        assert(4 * (size.0 as int) * (size.1 as int) <= 4 * 0xffff * 0xffff) by (nonlinear_arith)
            requires
                0 <= size.0 <= 0xffff,
                0 <= size.1 <= 0xffff,
        ;
        let bytes: u64 = 4 * (size.0 as u64) * (size.1 as u64);
        if bytes <= 0xffff_ffff {
            return Ok(());
        }
    }
    Err(RenderError::IcoSize { width: size.0, height: size.1 })
}

/// Renders a vector document at its own size.
pub fn render_svg_icon(svg_data: &str) -> (r: Result<Raster, RenderError>)
    ensures
        r matches Ok(image) ==> image.wf() && canvas_draws(image.width, image.height),
        r matches Err(e) ==> e is SvgParse || e is SvgCanvas,
{
    let tree = match svg_parse(svg_data) {
        Ok(tree) => tree,
        Err(message) => {
            return Err(RenderError::SvgParse(message));
        },
    };
    let (width, height) = svg_canvas(&tree);
    match check_canvas(width, height) {
        Ok(_) => {},
        Err(e) => {
            return Err(e);
        },
    }
    match svg_draw(&tree, width, height) {
        Some(raw) => Ok(Raster::whole(raw)),
        None => Err(RenderError::SvgCanvas { width, height }),
    }
}

/// Decodes the image of an icon container that is closest to the
/// canonical size, the first of them if several are.
pub fn render_ico_icon(icon_dir: &ico::IconDir) -> (r: Result<Raster, RenderError>)
    ensures
        container_rendered(
            r,
            ico_sizes(*icon_dir),
            ico_image(*icon_dir, closest_index(ico_sizes(*icon_dir), ICON_SIZE)),
        ),
{
    let sizes = ico_entry_sizes(icon_dir);
    match closest_entry(&sizes, ICON_SIZE) {
        None => Err(RenderError::IcoEmpty),
        Some(at) => {
            match check_entry_size(sizes[at]) {
                Ok(_) => {},
                Err(e) => {
                    return Err(e);
                },
            }
            match ico_decode(icon_dir, at) {
                Ok(raw) => Ok(Raster::whole(raw)),
                Err(message) => Err(RenderError::IcoDecode(message)),
            }
        },
    }
}

/// Decodes a raster image in the format that goes by `extension`. An
/// extension that names no raster format is refused before the bytes are
/// looked at.
pub fn render_raster_icon(bytes: &Vec<u8>, extension: &str) -> (r: Result<Raster, RenderError>)
    ensures
        raster_rendered(r, bytes@, extension@),
{
    match image_decode(bytes.as_slice(), extension) {
        None => Err(RenderError::UnknownFormat),
        Some(Ok(raw)) => Ok(Raster::whole(raw)),
        Some(Err(message)) => Err(RenderError::Decode(message)),
    }
}

/// What `source_rendered` says of a source, taken apart: the form of the
/// result, the three refusals, and the size of what was decoded.
pub proof fn lemma_source_rendered(r: Result<Raster, RenderError>, source: IconSource)
    requires
        source_rendered(r, source),
    ensures
        r matches Ok(image) ==> image.wf() && fits_source(source, image.width, image.height),
        r matches Err(e) ==> decode_error_of(source, e),
        format_unknown(source) <==> r matches Err(RenderError::UnknownFormat),
        container_unreadable(source) <==> r matches Err(RenderError::IcoRead(_)),
        container_empty(source) <==> r matches Err(RenderError::IcoEmpty),
        match decoding(source) {
            Some(Some(raw)) => r is Ok && r->Ok_0@ == raw,
            Some(None) => r is Err,
            None => true,
        },
        r matches Ok(image) ==> may_decode_to(source, image@),
{
    match source {
        IconSource::Ico(bytes) => {
            match ico_directory(bytes@) {
                Some(sizes) => {
                    assert(sizes.len() == 0 <==> sizes =~= Seq::<(u32, u32)>::empty());
                    if sizes.len() > 0 {
                        let at = closest_index(sizes, ICON_SIZE);
                        lemma_closest_exists(sizes, ICON_SIZE);
                        if r is Ok {
                            assert(is_closest(sizes, at, ICON_SIZE) && (
                                r->Ok_0.width,
                                r->Ok_0.height,
                            ) == sizes[at]);
                            assert(is_closest_size(sizes, r->Ok_0.width, r->Ok_0.height));
                        }
                    }
                },
                None => {},
            }
        },
        _ => {},
    }
}

/// A list of sizes that is not empty has a first closest entry.
pub proof fn lemma_closest_exists(sizes: Seq<(u32, u32)>, target: u32)
    requires
        sizes.len() > 0,
    ensures
        is_closest(sizes, closest_index(sizes, target), target),
{
    lemma_closest_upto(sizes, target, sizes.len());
    assert(sizes.take(sizes.len() as int) =~= sizes);
    let at = choose|at: int| is_closest(sizes, at, target);
    assert(is_closest(sizes, at, target));
}

/// The first `n` sizes have a first closest entry among them.
proof fn lemma_closest_upto(sizes: Seq<(u32, u32)>, target: u32, n: nat)
    requires
        0 < n <= sizes.len(),
    ensures
        exists|at: int| is_closest(sizes.take(n as int), at, target),
    decreases n,
{
    let head = sizes.take(n as int);
    if n == 1 {
        assert(is_closest(head, 0, target));
    } else {
        lemma_closest_upto(sizes, target, (n - 1) as nat);
        let before = sizes.take(n - 1);
        let at = choose|at: int| is_closest(before, at, target);
        assert forall|j: int| 0 <= j < before.len() implies #[trigger] before[j] == head[j] by {}
        if distance(head[n - 1], target) < distance(before[at], target) {
            assert(is_closest(head, n - 1, target)) by {
                assert forall|j: int| 0 <= j < head.len() implies distance(head[n - 1], target)
                    <= distance(#[trigger] head[j], target) by {
                    if j < n - 1 {
                        assert(distance(before[at], target) <= distance(before[j], target));
                    }
                }
                assert forall|j: int| 0 <= j < n - 1 implies distance(head[n - 1], target)
                    < distance(#[trigger] head[j], target) by {
                    assert(distance(before[at], target) <= distance(before[j], target));
                }
            }
        } else {
            assert(is_closest(head, at, target)) by {
                assert forall|j: int| 0 <= j < head.len() implies distance(head[at], target)
                    <= distance(#[trigger] head[j], target) by {
                    if j < n - 1 {
                        assert(distance(before[at], target) <= distance(before[j], target));
                    }
                }
                assert forall|j: int| 0 <= j < at implies distance(head[at], target) < distance(
                    #[trigger] head[j],
                    target,
                ) by {
                    assert(distance(before[at], target) < distance(before[j], target));
                }
            }
        }
    }
    if n == sizes.len() {
        assert(sizes.take(n as int) =~= sizes);
    }
}

/// Decodes the content of an icon file into a raster at its own size: a
/// vector document is drawn, of an icon container the image closest to the
/// canonical size is decoded, anything else is decoded as a raster image.
pub fn render_icon(source: &IconSource) -> (r: Result<Raster, RenderError>)
    ensures
        source_rendered(r, *source),
        r matches Ok(image) ==> image.wf() && fits_source(*source, image.width, image.height)
            && may_decode_to(*source, image@),
        r matches Err(e) ==> decode_error_of(*source, e),
        format_unknown(*source) <==> r matches Err(RenderError::UnknownFormat),
        container_unreadable(*source) <==> r matches Err(RenderError::IcoRead(_)),
        container_empty(*source) <==> r matches Err(RenderError::IcoEmpty),
{
    let r = match source {
        IconSource::Svg(text) => render_svg_icon(text.as_str()),
        IconSource::Ico(bytes) => match ico_read(bytes.as_slice()) {
            Ok(dir) => render_ico_icon(&dir),
            Err(message) => Err(RenderError::IcoRead(message)),
        },
        IconSource::Raster { bytes, extension } => render_raster_icon(bytes, extension.as_str()),
    };
    proof {
        lemma_source_rendered(r, *source);
    }
    r
}

/// The canonical raster that a resized image is: the image itself if it
/// has the canonical size and its buffer holds the bytes for that size and
/// no more. No resized image, or another, is an error.
pub fn canonical(resized: Option<RawImage>) -> (r: Result<Raster, RenderError>)
    ensures
        match r {
            Ok(image) => {
                &&& resized matches Some(raw)
                &&& image.wf()
                &&& image@ == raw_view(raw)
                &&& image.width == ICON_SIZE
                &&& image.height == ICON_SIZE
            },
            Err(e) => {
                &&& e == RenderError::Resize
                &&& !(resized matches Some(raw) && raw.width == ICON_SIZE && raw.height == ICON_SIZE
                    && raw.pixels@.len() == 4 * ICON_SIZE * ICON_SIZE)
            },
        },
{
    let raw = match resized {
        Some(raw) => raw,
        None => {
            return Err(RenderError::Resize);
        },
    };
    if raw.width != ICON_SIZE || raw.height != ICON_SIZE {
        return Err(RenderError::Resize);
    }
    match Raster::from_raw(raw) {
        Some(image) => Ok(image),
        None => Err(RenderError::Resize),
    }
}

/// The rendered icon of a canonical raster: the raster with its PNG file,
/// where the encoder gives one.
pub fn encode_icon(image: Raster, upscaled: bool) -> (r: Result<RenderedIcon, RenderError>)
    requires
        image.wf(),
    ensures
        match png_file(image.width, image.height, image.pixels@) {
            Some(bytes) => {
                &&& r matches Ok(icon)
                &&& icon.image == image
                &&& icon.png@ == bytes
                &&& icon.upscaled == upscaled
            },
            None => r matches Err(RenderError::Encode),
        },
{
    match png_encode(image.to_raw()) {
        Some(png) => Ok(RenderedIcon { image, png, upscaled }),
        None => Err(RenderError::Encode),
    }
}

/// Brings a decoded image to the canonical size and encodes it. An image
/// without area is refused. An image of no more than 65535 pixels a side
/// is resized to the canonical size; whether it is rendered then lies with
/// the encoder alone, and the error of encoding comes only where the
/// encoder has refused the resized image. The rendered icon is one that
/// resizing the image may hand out.
pub fn finish_icon(image: Raster) -> (r: Result<RenderedIcon, RenderError>)
    ensures
        r matches Ok(icon) ==> {
            &&& icon.image.wf()
            &&& icon.image.width == ICON_SIZE
            &&& icon.image.height == ICON_SIZE
            &&& icon.upscaled == needs_upscale(image.width, image.height)
            &&& png_file(ICON_SIZE, ICON_SIZE, icon.image.pixels@) == Some(icon.png@)
            &&& resize_outcome(ICON_FILTER, image@, ICON_SIZE, ICON_SIZE, icon.image@)
        },
        r matches Err(e) ==> e is EmptyImage || e is Resize || e is Encode,
        image.width == 0 || image.height == 0 <==> r matches Err(RenderError::EmptyImage),
        image.wf() && resizes(image.width, image.height) ==> !(r matches Err(RenderError::Resize)),
        r matches Err(RenderError::Encode) ==> encoder_refuses(),
{
    if image.width == 0 || image.height == 0 {
        return Err(RenderError::EmptyImage);
    }
    let upscaled = image.width < ICON_SIZE || image.height < ICON_SIZE;
    let raw = RawImage { width: image.width, height: image.height, pixels: image.pixels };
    let resized = image_resize(raw, ICON_SIZE, ICON_SIZE, ICON_FILTER);
    match canonical(resized) {
        Ok(canonical) => {
            let ghost pixels = canonical.pixels@;
            let r = encode_icon(canonical, upscaled);
            proof {
                if r is Err {
                    assert(png_file(ICON_SIZE, ICON_SIZE, pixels) is None);
                }
            }
            r
        },
        Err(e) => Err(e),
    }
}

/// Renders the content of an icon file: decodes it, brings it to the
/// canonical size and encodes it as PNG. What the decoder refuses is
/// refused with the decoder's error. What decodes to an image of no more
/// than 65535 pixels a side is rendered if the encoder takes the resized
/// image. The rendered icon is one that resizing the decoded image may
/// hand out, and is marked as scaled up exactly if the decoded image is
/// smaller than the canonical size in width or height.
pub fn load_icon(source: &IconSource) -> (r: Result<RenderedIcon, RenderError>)
    ensures
        r matches Ok(icon) ==> {
            &&& icon.image.wf()
            &&& icon.image.width == ICON_SIZE
            &&& icon.image.height == ICON_SIZE
            &&& png_file(ICON_SIZE, ICON_SIZE, icon.image.pixels@) == Some(icon.png@)
            &&& is_resized_from(*source, icon)
        },
        r matches Err(e) ==> decode_error_of(*source, e) || e is EmptyImage || e is Resize
            || e is Encode,
        format_unknown(*source) <==> r matches Err(RenderError::UnknownFormat),
        container_unreadable(*source) <==> r matches Err(RenderError::IcoRead(_)),
        container_empty(*source) <==> r matches Err(RenderError::IcoEmpty),
        source is Svg ==> !(r matches Err(RenderError::EmptyImage)),
        r matches Err(RenderError::Encode) ==> encoder_refuses(),
        match decoding(*source) {
            Some(Some(raw)) => {
                &&& r matches Ok(icon) ==> icon.upscaled == needs_upscale(raw.0, raw.1)
                    && resize_outcome(ICON_FILTER, raw, ICON_SIZE, ICON_SIZE, icon.image@)
                &&& (raw.0 == 0 || raw.1 == 0) <==> (r is Err && r->Err_0 is EmptyImage)
                &&& resizes(raw.0, raw.1) ==> r is Ok || (r is Err && r->Err_0 is Encode)
            },
            Some(None) => r is Err && decode_error_of(*source, r->Err_0),
            None => true,
        },
{
    match render_icon(source) {
        Ok(image) => {
            let ghost raw = image@;
            let r = finish_icon(image);
            proof {
                if r is Ok {
                    let icon = r->Ok_0;
                    assert(icon.image@ == (ICON_SIZE, ICON_SIZE, icon.image.pixels@));
                    assert(may_decode_to(*source, raw) && raw.2.len() == 4 * raw.0 * raw.1
                        && icon.upscaled == needs_upscale(raw.0, raw.1) && resize_outcome(
                        ICON_FILTER,
                        raw,
                        ICON_SIZE,
                        ICON_SIZE,
                        (ICON_SIZE, ICON_SIZE, icon.image.pixels@),
                    ));
                }
            }
            r
        },
        Err(e) => Err(e),
    }
}

} // verus!
