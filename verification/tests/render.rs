use std::io::Cursor;

use ignition::codecs::RawImage;
use ignition::render::{
    canonical, closest_entry, finish_icon, icon_format, load_icon, render_icon, IconFormat,
    IconSource, Raster, RenderError, ICON_SIZE,
};

fn png(width: u32, height: u32, color: [u8; 4]) -> Vec<u8> {
    let image = image::RgbaImage::from_pixel(width, height, image::Rgba(color));
    let mut out = Cursor::new(Vec::new());
    image::DynamicImage::ImageRgba8(image).write_to(&mut out, image::ImageFormat::Png).unwrap();
    out.into_inner()
}

fn ico(entries: &[(u32, [u8; 4])]) -> Vec<u8> {
    let mut dir = ico::IconDir::new(ico::ResourceType::Icon);
    for (size, color) in entries {
        let pixels: Vec<u8> = (0..size * size).flat_map(|_| color.iter().copied()).collect();
        let image = ico::IconImage::from_rgba_data(*size, *size, pixels);
        dir.add_entry(ico::IconDirEntry::encode(&image).unwrap());
    }
    let mut out = Vec::new();
    dir.write(&mut out).unwrap();
    out
}

fn raster_source(bytes: Vec<u8>, extension: &str) -> IconSource {
    IconSource::Raster { bytes, extension: extension.to_string() }
}

fn decoded_size(png: &[u8]) -> (u32, u32) {
    let image = image::load_from_memory_with_format(png, image::ImageFormat::Png).unwrap();
    (image.width(), image.height())
}

#[test]
fn icon_format_goes_by_the_extension() {
    assert_eq!(icon_format("/usr/share/icons/foo.svg"), IconFormat::Svg);
    assert_eq!(icon_format("/usr/share/icons/foo.ico"), IconFormat::Ico);
    assert_eq!(icon_format("/usr/share/icons/foo.png"), IconFormat::Raster);
    assert_eq!(icon_format("/usr/share/icons/foo"), IconFormat::Raster);
    assert_eq!(icon_format("/usr/share/icons/foo.SVG"), IconFormat::Raster);
    assert_eq!(icon_format("/usr/share/icons.svg/foo"), IconFormat::Raster);
    assert_eq!(icon_format("firefox"), IconFormat::Raster);
}

#[test]
fn closest_entry_picks_the_size_nearest_to_the_target() {
    assert_eq!(closest_entry(&vec![(16, 16), (32, 32), (48, 48)], 32), Some(1));
    assert_eq!(closest_entry(&vec![(16, 16), (48, 48)], 32), Some(0));
    assert_eq!(closest_entry(&vec![(48, 48), (16, 16)], 32), Some(0));
    assert_eq!(closest_entry(&vec![(256, 256), (64, 64), (40, 24)], 32), Some(2));
    assert_eq!(closest_entry(&vec![(8, 40), (40, 8)], 32), Some(0));
    assert_eq!(closest_entry(&vec![(u32::MAX, 1), (0, 0)], 32), Some(1));
    assert_eq!(closest_entry(&vec![(20, 20)], 32), Some(0));
    assert_eq!(closest_entry(&vec![], 32), None);
}

#[test]
fn from_raw_checks_the_buffer() {
    let ok = Raster::from_raw(RawImage { width: 2, height: 3, pixels: vec![7; 24] }).unwrap();
    assert_eq!((ok.width, ok.height, ok.pixels.len()), (2, 3, 24));
    assert!(Raster::from_raw(RawImage { width: 2, height: 3, pixels: vec![7; 30] }).is_none());
    assert!(Raster::from_raw(RawImage { width: 2, height: 3, pixels: vec![7; 23] }).is_none());
    assert!(Raster::from_raw(RawImage { width: u32::MAX, height: u32::MAX, pixels: vec![] }).is_none());
    let empty = Raster::from_raw(RawImage { width: 0, height: 5, pixels: vec![] }).unwrap();
    assert_eq!(empty.pixels.len(), 0);
    assert_eq!(ok.to_raw().pixels, vec![7; 24]);
    let whole = Raster::whole(RawImage { width: 1, height: 2, pixels: vec![1, 2, 3, 4, 5, 6, 7, 8] });
    assert_eq!((whole.width, whole.height), (1, 2));
    assert_eq!(whole.pixels, vec![1, 2, 3, 4, 5, 6, 7, 8]);
}

#[test]
fn canonical_takes_the_canonical_size_alone() {
    let image = canonical(Some(RawImage { width: 32, height: 32, pixels: vec![3; 4096] })).unwrap();
    assert_eq!((image.width, image.height), (32, 32));
    assert_eq!(image.pixels, vec![3; 4096]);
    assert_eq!(canonical(None).unwrap_err(), RenderError::Resize);
    let other = RawImage { width: 32, height: 31, pixels: vec![3; 4 * 32 * 31] };
    assert_eq!(canonical(Some(other)).unwrap_err(), RenderError::Resize);
    let short = RawImage { width: 32, height: 32, pixels: vec![3; 4095] };
    assert_eq!(canonical(Some(short)).unwrap_err(), RenderError::Resize);
    let long = RawImage { width: 32, height: 32, pixels: vec![3; 4097] };
    assert_eq!(canonical(Some(long)).unwrap_err(), RenderError::Resize);
}

#[test]
fn the_resized_icon_shows_the_image_that_came_in() {
    // Left half red, right half blue, 64 by 64.
    let mut pixels = Vec::new();
    for _row in 0..64 {
        for column in 0..64 {
            if column < 32 {
                pixels.extend_from_slice(&[255, 0, 0, 255]);
            } else {
                pixels.extend_from_slice(&[0, 0, 255, 255]);
            }
        }
    }
    let icon = finish_icon(Raster { width: 64, height: 64, pixels }).unwrap();
    assert!(!icon.upscaled);
    assert_eq!(icon.image.pixels.len(), 4096);
    for row in [0usize, 15, 31] {
        let left = &icon.image.pixels[4 * (32 * row + 2)..4 * (32 * row + 2) + 4];
        let right = &icon.image.pixels[4 * (32 * row + 29)..4 * (32 * row + 29) + 4];
        assert!(left[0] > 200 && left[2] < 50 && left[3] > 200, "{left:?}");
        assert!(right[2] > 200 && right[0] < 50 && right[3] > 200, "{right:?}");
    }
}

#[test]
fn a_buffer_that_is_too_long_for_its_size_is_still_resized() {
    let icon = finish_icon(Raster { width: 1, height: 1, pixels: vec![9, 8, 7, 255, 1, 2] }).unwrap();
    assert_eq!((icon.image.width, icon.image.height), (32, 32));
    assert_eq!(finish_icon(Raster { width: 2, height: 2, pixels: vec![9; 15] }).unwrap_err(), RenderError::Resize);
}

#[test]
fn a_small_raster_is_scaled_up_to_the_canonical_size() {
    let icon = load_icon(&raster_source(png(16, 16, [255, 0, 0, 255]), "png")).unwrap();
    assert_eq!((icon.image.width, icon.image.height), (32, 32));
    assert_eq!(icon.image.pixels.len(), 32 * 32 * 4);
    assert!(icon.upscaled);
    assert_eq!(decoded_size(&icon.png), (32, 32));
    assert_eq!(&icon.image.pixels[0..4], &[255, 0, 0, 255]);
}

#[test]
fn a_large_raster_is_scaled_down_without_warning() {
    let icon = load_icon(&raster_source(png(64, 48, [0, 255, 0, 255]), "png")).unwrap();
    assert_eq!((icon.image.width, icon.image.height), (ICON_SIZE, ICON_SIZE));
    assert!(!icon.upscaled);
    assert_eq!(decoded_size(&icon.png), (32, 32));
    let exact = load_icon(&raster_source(png(32, 32, [0, 0, 255, 255]), "png")).unwrap();
    assert!(!exact.upscaled);
    let narrow = load_icon(&raster_source(png(64, 20, [0, 0, 255, 255]), "png")).unwrap();
    assert!(narrow.upscaled);
    assert_eq!((narrow.image.width, narrow.image.height), (32, 32));
}

#[test]
fn a_raster_is_decoded_in_the_format_of_its_extension() {
    let bytes = png(8, 8, [1, 2, 3, 255]);
    let image = render_icon(&raster_source(bytes.clone(), "png")).unwrap();
    assert_eq!((image.width, image.height), (8, 8));
    assert_eq!(&image.pixels[0..4], &[1, 2, 3, 255]);
    assert!(render_icon(&raster_source(bytes.clone(), "PNG")).is_ok());
    assert!(matches!(render_icon(&raster_source(bytes.clone(), "jpg")), Err(RenderError::Decode(_))));
    assert_eq!(render_icon(&raster_source(bytes.clone(), "")).unwrap_err(), RenderError::UnknownFormat);
    assert_eq!(
        render_icon(&raster_source(bytes, "no clue")).unwrap_err(),
        RenderError::UnknownFormat
    );
    assert!(matches!(
        render_icon(&raster_source(b"not an image".to_vec(), "png")),
        Err(RenderError::Decode(_))
    ));
}

#[test]
fn an_extension_is_known_in_any_case_or_not_at_all() {
    let known = [
        "avif", "jpg", "jpeg", "jfif", "png", "apng", "gif", "webp", "tif", "tiff", "tga", "dds",
        "bmp", "ico", "hdr", "exr", "pbm", "pam", "ppm", "pgm", "pnm", "ff", "qoi",
    ];
    for extension in known {
        for spelling in [extension.to_string(), extension.to_uppercase()] {
            let r = render_icon(&raster_source(b"nothing".to_vec(), &spelling));
            assert!(matches!(r, Err(RenderError::Decode(_))), "{spelling}: {r:?}");
            let r = load_icon(&raster_source(b"nothing".to_vec(), &spelling));
            assert!(matches!(r, Err(RenderError::Decode(_))), "{spelling}");
        }
    }
    for extension in ["", "svgz", "xpm", "jpe", "pngx", "p", ".png", "png ", "ｐｎｇ", "no clue"] {
        let bytes = png(4, 4, [0, 0, 0, 255]);
        let r = render_icon(&raster_source(bytes.clone(), extension));
        assert_eq!(r.unwrap_err(), RenderError::UnknownFormat, "{extension}");
        let r = load_icon(&raster_source(bytes, extension));
        assert_eq!(r.unwrap_err(), RenderError::UnknownFormat, "{extension}");
    }
}

#[test]
fn load_icon_refuses_what_render_icon_refuses() {
    assert!(matches!(
        load_icon(&IconSource::Ico(b"broken".to_vec())),
        Err(RenderError::IcoRead(_))
    ));
    assert_eq!(load_icon(&IconSource::Ico(ico(&[]))).unwrap_err(), RenderError::IcoEmpty);
    assert!(matches!(
        load_icon(&IconSource::Svg("<svg".to_string())),
        Err(RenderError::SvgParse(_))
    ));
}

#[test]
fn an_ico_gives_the_entry_closest_to_the_canonical_size() {
    let bytes = ico(&[(16, [255, 0, 0, 255]), (32, [0, 255, 0, 255]), (48, [0, 0, 255, 255])]);
    let image = render_icon(&IconSource::Ico(bytes.clone())).unwrap();
    assert_eq!((image.width, image.height), (32, 32));
    assert_eq!(&image.pixels[0..4], &[0, 255, 0, 255]);
    let icon = load_icon(&IconSource::Ico(bytes)).unwrap();
    assert!(!icon.upscaled);
    assert_eq!(decoded_size(&icon.png), (32, 32));
}

#[test]
fn an_ico_with_a_tie_gives_the_first_entry() {
    let bytes = ico(&[(48, [1, 1, 1, 255]), (16, [2, 2, 2, 255])]);
    let image = render_icon(&IconSource::Ico(bytes)).unwrap();
    assert_eq!((image.width, image.height), (48, 48));
    let bytes = ico(&[(16, [2, 2, 2, 255]), (48, [1, 1, 1, 255])]);
    let image = render_icon(&IconSource::Ico(bytes)).unwrap();
    assert_eq!((image.width, image.height), (16, 16));
}

#[test]
fn a_broken_ico_is_an_error() {
    assert!(matches!(
        render_icon(&IconSource::Ico(b"broken".to_vec())),
        Err(RenderError::IcoRead(_))
    ));
    let empty = ico(&[]);
    assert_eq!(render_icon(&IconSource::Ico(empty)).unwrap_err(), RenderError::IcoEmpty);
}

#[test]
fn an_ico_whose_image_is_broken_is_an_error() {
    // A directory with one entry of 16 by 16 pixels whose image is four bytes of nothing.
    let mut bytes = vec![0, 0, 1, 0, 1, 0];
    bytes.extend_from_slice(&[16, 16, 0, 0, 1, 0, 32, 0, 4, 0, 0, 0, 22, 0, 0, 0]);
    bytes.extend_from_slice(&[1, 2, 3, 4]);
    assert!(matches!(render_icon(&IconSource::Ico(bytes)), Err(RenderError::IcoDecode(_))));
}

#[test]
fn an_ico_whose_image_is_too_large_is_an_error() {
    // One entry whose bitmap header states 65536 by 65536 pixels at 32 bits,
    // with four bytes of data behind the header.
    let mut bytes = vec![0, 0, 1, 0, 1, 0];
    bytes.extend_from_slice(&[0, 0, 0, 0, 1, 0, 32, 0, 44, 0, 0, 0, 22, 0, 0, 0]);
    bytes.extend_from_slice(&40u32.to_le_bytes());
    bytes.extend_from_slice(&65536i32.to_le_bytes());
    bytes.extend_from_slice(&131072i32.to_le_bytes());
    bytes.extend_from_slice(&[1, 0, 32, 0]);
    bytes.extend_from_slice(&[0; 24]);
    bytes.extend_from_slice(&[1, 2, 3, 4]);
    assert_eq!(bytes.len(), 66);
    assert_eq!(
        render_icon(&IconSource::Ico(bytes.clone())).unwrap_err(),
        RenderError::IcoSize { width: 65536, height: 65536 }
    );
    assert_eq!(
        load_icon(&IconSource::Ico(bytes)).unwrap_err(),
        RenderError::IcoSize { width: 65536, height: 65536 }
    );
}

#[test]
fn a_long_or_a_wide_image_is_brought_to_the_canonical_size() {
    for (width, height) in [(1u32, 3000u32), (3000, 1), (7, 5), (33, 31), (3, 4097), (4097, 3)] {
        let pixels = vec![200u8; (width * height * 4) as usize];
        let icon = finish_icon(Raster { width, height, pixels }).unwrap();
        assert_eq!((icon.image.width, icon.image.height), (32, 32), "{width}x{height}");
        assert_eq!(icon.image.pixels.len(), 32 * 32 * 4);
        assert_eq!(icon.upscaled, width < 32 || height < 32);
        assert_eq!(decoded_size(&icon.png), (32, 32));
    }
}

#[test]
fn the_png_of_an_icon_holds_its_pixels() {
    let icon = load_icon(&raster_source(png(40, 40, [10, 20, 30, 255]), "png")).unwrap();
    let back = image::load_from_memory_with_format(&icon.png, image::ImageFormat::Png).unwrap();
    assert_eq!(back.into_rgba8().into_raw(), icon.image.pixels);
}

#[test]
fn an_svg_is_rendered_at_its_own_size() {
    let svg = "<svg xmlns=\"http://www.w3.org/2000/svg\" width=\"10\" height=\"20\">\
               <rect width=\"10\" height=\"20\" fill=\"#ff0000\"/></svg>";
    let image = render_icon(&IconSource::Svg(svg.to_string())).unwrap();
    assert_eq!((image.width, image.height), (10, 20));
    assert_eq!(image.pixels.len(), 10 * 20 * 4);
    assert_eq!(&image.pixels[0..4], &[255, 0, 0, 255]);
    let icon = load_icon(&IconSource::Svg(svg.to_string())).unwrap();
    assert!(icon.upscaled);
    assert_eq!(decoded_size(&icon.png), (32, 32));
}

#[test]
fn a_broken_svg_is_an_error() {
    assert!(matches!(
        render_icon(&IconSource::Svg("<svg".to_string())),
        Err(RenderError::SvgParse(_))
    ));
    let tiny = "<svg xmlns=\"http://www.w3.org/2000/svg\" width=\"0.5\" height=\"20\"/>";
    assert_eq!(
        render_icon(&IconSource::Svg(tiny.to_string())).unwrap_err(),
        RenderError::SvgCanvas { width: 0, height: 20 }
    );
    let huge = "<svg xmlns=\"http://www.w3.org/2000/svg\" width=\"1000000000\" height=\"1\"/>";
    assert_eq!(
        render_icon(&IconSource::Svg(huge.to_string())).unwrap_err(),
        RenderError::SvgCanvas { width: 1000000000, height: 1 }
    );
}

#[test]
fn finish_icon_refuses_an_image_without_area() {
    let empty = Raster { width: 0, height: 4, pixels: vec![] };
    assert_eq!(finish_icon(empty).unwrap_err(), RenderError::EmptyImage);
    let empty = Raster { width: 4, height: 0, pixels: vec![] };
    assert_eq!(finish_icon(empty).unwrap_err(), RenderError::EmptyImage);
}

#[test]
fn finish_icon_brings_one_pixel_to_the_canonical_size() {
    let dot = Raster { width: 1, height: 1, pixels: vec![9, 8, 7, 255] };
    let icon = finish_icon(dot).unwrap();
    assert_eq!((icon.image.width, icon.image.height), (32, 32));
    assert!(icon.upscaled);
    assert_eq!(decoded_size(&icon.png), (32, 32));
}
