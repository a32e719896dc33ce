//! From frames to the bytes that the device takes for a button.

use mirajazz::types::{
    ImageFormat as DeviceFormat, ImageMirroring as DeviceMirroring, ImageMode as DeviceMode,
    ImageRotation as DeviceRotation,
};
use vstd::prelude::*;

use crate::cache;
use crate::error::DeviceError;
use crate::frame;
use crate::frame::{blank_button_image, RgbFrame};
use crate::mappings::{ImageFormat, ImageMirroring, ImageMode, ImageRotation};
use crate::picture;
use crate::picture::decode_button_image;

verus! {

/// The bytes of a bitmap's row in a BMP file, which fills rows up to fours.
pub open spec fn bmp_row(width: u32) -> int {
    (3 * width + 3) / 4 * 4
}

/// Whether a frame of the given size can be written in the given encoding: a
/// JPEG file counts its sides in sixteen bits, a BMP file its bytes in
/// thirty-two.
pub open spec fn encodable(mode: ImageMode, width: u32, height: u32) -> bool {
    match mode {
        ImageMode::NoImage => true,
        ImageMode::BMP => bmp_row(width) <= u32::MAX && 54 + bmp_row(width) * height <= u32::MAX,
        ImageMode::JPEG => 1 <= width <= 65535 && 1 <= height <= 65535,
    }
}

/// Whether frames can be written in the given format.
pub open spec fn is_encodable(format: ImageFormat) -> bool {
    let size = picture::button_size(format);
    encodable(format.mode, size.0, size.1)
}

/// What `mirajazz::images::convert_image_with_format` makes of a frame that has
/// the format's size: encoding, rotation and mirroring are given by their
/// numbers.
pub uninterp spec fn converted_bytes(
    mode: u8,
    rotation: u8,
    mirror: u8,
    width: u32,
    height: u32,
    samples: Seq<u8>,
) -> Seq<u8>;

/// What a frame is converted to for a button of the given format.
pub open spec fn converted(
    format: ImageFormat,
    width: u32,
    height: u32,
    samples: Seq<u8>,
) -> Seq<u8> {
    converted_bytes(
        cache::mode_code(format.mode),
        cache::rotation_code(format.rotation),
        cache::mirror_code(format.mirror),
        width,
        height,
        samples,
    )
}

/// A frame can be converted for a button of the given format: it has the
/// button's size, or is no larger than a JPEG picture and can be scaled to it.
pub open spec fn convertible(format: ImageFormat, width: u32, height: u32) -> bool {
    let size = picture::button_size(format);
    ||| (width, height) == size
    ||| width <= picture::JPEG_SIDE_LIMIT && height <= picture::JPEG_SIDE_LIMIT
        && picture::scalable(width, size.0, size.1)
}

/// The bytes are as many as the format asks for: none for no image, some for a
/// JPEG file, and for a BMP file its header and its rows.
pub open spec fn has_length(data: Seq<u8>, format: ImageFormat) -> bool {
    let size = picture::button_size(format);
    match format.mode {
        ImageMode::NoImage => data.len() == 0,
        ImageMode::BMP => data.len() == 54 + bmp_row(size.0) * size.1,
        ImageMode::JPEG => data.len() > 0,
    }
}

/// Calls `mirajazz::images::convert_image_with_format`, and waits for it with
/// `futures_lite::future::block_on`. Trusted: a frame is scaled to the format's
/// size, turned, mirrored and encoded; this fails exactly where the encoding
/// cannot express the size; there are no bytes where the format asks for no
/// image, some for a JPEG file, and a header and whole rows for a BMP file; and
/// a frame that has the format's size is not resampled, so
/// that its bytes depend on the format and the frame alone, as
/// `converted_bytes` names them. Nothing more is said of the bytes of a frame
/// of another size: it is resampled with weights that are computed with
/// `f32::sin`, whose precision depends on the machine. The outside function
/// blocks its thread, so it must not be reached from within a single-threaded
/// runtime.
#[verifier::external_body]
fn convert_image_with_format(format: ImageFormat, frame: RgbFrame) -> (r: Result<
    Vec<u8>,
    image::ImageError,
>)
    requires
        frame.wf(),
        convertible(format, frame.width, frame.height),
    ensures
        r is Ok <==> is_encodable(format),
        r matches Ok(data) ==> {
            &&& (frame.width, frame.height) == picture::button_size(format) ==> data@
                == converted_bytes(
                cache::mode_code(format.mode),
                cache::rotation_code(format.rotation),
                cache::mirror_code(format.mirror),
                frame.width,
                frame.height,
                frame.samples@,
            )
            &&& has_length(data@, format)
        },
{
    let mode = match format.mode { ImageMode::NoImage => DeviceMode::None, ImageMode::BMP => DeviceMode::BMP, ImageMode::JPEG => DeviceMode::JPEG };
    let rotation = match format.rotation {
        ImageRotation::Rot0 => DeviceRotation::Rot0, ImageRotation::Rot90 => DeviceRotation::Rot90,
        ImageRotation::Rot180 => DeviceRotation::Rot180, ImageRotation::Rot270 => DeviceRotation::Rot270,
    };
    let mirror = match format.mirror {
        ImageMirroring::Unmirrored => DeviceMirroring::None, ImageMirroring::X => DeviceMirroring::X,
        ImageMirroring::Y => DeviceMirroring::Y, ImageMirroring::Both => DeviceMirroring::Both,
    };
    let format = DeviceFormat { mode, size: format.size, rotation, mirror };
    let image = image::RgbImage::from_raw(frame.width, frame.height, frame.samples).unwrap().into();
    futures_lite::future::block_on(mirajazz::images::convert_image_with_format(format, image))
}

/// Converts a frame to the bytes that the device takes. This blocks its thread,
/// so it must not be reached from within a single-threaded runtime.
pub fn convert_image_with_format_sync(image_format: ImageFormat, image: RgbFrame) -> (r: Result<
    Vec<u8>,
    DeviceError,
>)
    requires
        image.wf(),
        convertible(image_format, image.width, image.height),
    ensures
        match r {
            Ok(data) => {
                &&& is_encodable(image_format)
                &&& (image.width, image.height) == picture::button_size(image_format) ==> data@
                    == converted(image_format, image.width, image.height, image.samples@)
                &&& has_length(data@, image_format)
            },
            Err(err) => {
                &&& !is_encodable(image_format)
                &&& err is ImageError
            },
        },
        r is Ok && image.width == image_format.size.0 as u32 && image.height
            == image_format.size.1 as u32 ==> r->Ok_0@ == converted_bytes(
            cache::mode_code(image_format.mode),
            cache::rotation_code(image_format.rotation),
            cache::mirror_code(image_format.mirror),
            image.width,
            image.height,
            image.samples@,
        ),
{
    match convert_image_with_format(image_format, image) {
        Ok(data) => Ok(data),
        Err(err) => Err(DeviceError::ImageError(err)),
    }
}

/// What the device takes for a button, from the text that the host sends for
/// it; `None` if the text or the picture in it is no good.
pub open spec fn button_data(format: ImageFormat, text: Seq<char>) -> Option<Seq<u8>> {
    let (width, height) = picture::button_size(format);
    match picture::jpeg_body(picture::data_url_subtype(text), picture::data_url_body(text)) {
        None => None,
        Some(bytes) => if !is_encodable(format) {
            None
        } else {
            match picture::jpeg_content(bytes) {
                None => None,
                Some(None) => None,
                Some(Some((gray, picture_width, picture_height, samples))) => Some(
                    converted(
                        format,
                        width,
                        height,
                        picture::normalized_samples(
                            width,
                            height,
                            gray,
                            picture_width,
                            picture_height,
                            samples,
                        ),
                    ),
                ),
            }
        },
    }
}

/// The text for a button holds no JPEG file, or one that the decoder panics on.
pub open spec fn is_bad_data(text: Seq<char>) -> bool {
    match picture::jpeg_body(picture::data_url_subtype(text), picture::data_url_body(text)) {
        None => true,
        Some(bytes) => picture::jpeg_content(bytes) is None,
    }
}

/// Whether the decoder panics on the file in the text rests on the machine.
pub open spec fn rests_on_machine(text: Seq<char>) -> bool {
    match picture::jpeg_body(picture::data_url_subtype(text), picture::data_url_body(text)) {
        None => false,
        Some(bytes) => picture::rests_on_machine(bytes),
    }
}

/// Decodes what the host sends for a button and converts it to the bytes that
/// the device takes. Neither step needs the device, so this can run on any
/// thread that may block; it must not be reached from within a single-threaded
/// runtime.
pub fn decode_and_convert_button_image(format: ImageFormat, payload: &str) -> (r: Result<
    Vec<u8>,
    DeviceError,
>)
    requires
        picture::decodable(format),
    ensures
        match r {
            Ok(data) => Some(data@) == button_data(format, payload@),
            Err(err) => {
                ||| rests_on_machine(payload@) && err is BadData
                ||| {
                    &&& button_data(format, payload@) is None
                    &&& err is BadData <==> is_bad_data(payload@)
                    &&& err is ImageError <==> !is_bad_data(payload@)
                }
            },
        },
{
    match decode_button_image(format, payload) {
        Err(err) => Err(err),
        Ok(button) => {
            proof {
                let bytes = picture::data_url_body(payload@)->0;
                let (gray, width, height, samples) = picture::jpeg_content(bytes)->0->0;
                picture::picture_settles_the_button(button, gray, width, height, samples);
            }
            convert_image_with_format_sync(format, button)
        },
    }
}

/// What the device takes for a text is what the button is converted to that has
/// the format's own size and shows the text's picture, scaled to that size: in
/// its middle sample by sample, black around it and where corners are rounded
/// off.
pub proof fn texts_come_to_their_pictures(
    format: ImageFormat,
    text: Seq<char>,
    bytes: Seq<u8>,
    picture: (bool, u32, u32, Seq<u8>),
    scaled: (u32, u32, Seq<u8>),
    button: RgbFrame,
)
    requires
        is_encodable(format),
        picture::data_url_subtype(text) == Some("jpeg"@),
        picture::data_url_body(text) == Some(bytes),
        picture::jpeg_content(bytes) == Some(Some(picture)),
        scaled == picture::scaled_content(
            picture.0,
            picture.1,
            picture.2,
            picture.3,
            button.width,
            button.height,
        ),
        button.width == format.size.0 as u32,
        button.height == format.size.1 as u32,
        button.samples@.len() == 3 * (button.width * button.height),
        forall|r: int, x: int, y: int|
            #![trigger frame::outside_rounded_rect(x, y, button.width as int, button.height as int, r)]
            0 <= r <= 16 && 2 * r <= button.width && 2 * r <= button.height && (r == 16
                || button.width < 2 * r + 2 || button.height < 2 * r + 2) && 0 <= x < button.width
                && 0 <= y < button.height ==> {
                frame::outside_rounded_rect(x, y, button.width as int, button.height as int, r)
                    ==> {
                    &&& button.samples@[3 * (y * button.width + x)] == 0
                    &&& button.samples@[3 * (y * button.width + x) + 1] == 0
                    &&& button.samples@[3 * (y * button.width + x) + 2] == 0
                }
            },
        forall|x: int, y: int| #[trigger]
            button.has(x, y) && (button.width < scaled.0 || button.height < scaled.1
                || x < (button.width - scaled.0) / 2 || (button.width - scaled.0) / 2 + scaled.0 <= x
                || y < (button.height - scaled.1) / 2 || (button.height - scaled.1) / 2 + scaled.1 <= y) ==> {
                &&& button.samples@[3 * (y * button.width + x)] == 0
                &&& button.samples@[3 * (y * button.width + x) + 1] == 0
                &&& button.samples@[3 * (y * button.width + x) + 2] == 0
            },
        forall|r: int, x: int, y: int|
            #![trigger frame::outside_rounded_rect(x, y, button.width as int, button.height as int, r)]
            0 <= r <= 16 && 2 * r <= button.width && 2 * r <= button.height && (r == 16
                || button.width < 2 * r + 2 || button.height < 2 * r + 2) && 0 <= x < button.width
                && 0 <= y < button.height ==> {
                let left = (button.width - scaled.0) / 2;
                let top = (button.height - scaled.1) / 2;
                !picture.0 && !frame::outside_rounded_rect(x, y, button.width as int, button.height as int, r)
                    && scaled.0 <= button.width && scaled.1 <= button.height && left <= x < left + scaled.0
                    && top <= y < top + scaled.1
                    ==> {
                    &&& button.samples@[3 * (y * button.width + x)]
                        == scaled.2[3 * ((y - top) * scaled.0 + (x - left))]
                    &&& button.samples@[3 * (y * button.width + x) + 1]
                        == scaled.2[3 * ((y - top) * scaled.0 + (x - left)) + 1]
                    &&& button.samples@[3 * (y * button.width + x) + 2]
                        == scaled.2[3 * ((y - top) * scaled.0 + (x - left)) + 2]
                }
            },
        forall|r: int, x: int, y: int|
            #![trigger frame::outside_rounded_rect(x, y, button.width as int, button.height as int, r)]
            0 <= r <= 16 && 2 * r <= button.width && 2 * r <= button.height && (r == 16
                || button.width < 2 * r + 2 || button.height < 2 * r + 2) && 0 <= x < button.width
                && 0 <= y < button.height ==> {
                let left = (button.width - scaled.0) / 2;
                let top = (button.height - scaled.1) / 2;
                picture.0 && !frame::outside_rounded_rect(x, y, button.width as int, button.height as int, r)
                    && scaled.0 <= button.width && scaled.1 <= button.height && left <= x < left + scaled.0
                    && top <= y < top + scaled.1
                    ==> {
                    &&& button.samples@[3 * (y * button.width + x)]
                        == scaled.2[(y - top) * scaled.0 + (x - left)]
                    &&& button.samples@[3 * (y * button.width + x) + 1]
                        == scaled.2[(y - top) * scaled.0 + (x - left)]
                    &&& button.samples@[3 * (y * button.width + x) + 2]
                        == scaled.2[(y - top) * scaled.0 + (x - left)]
                }
            },
    ensures
        button_data(format, text) == Some(
            converted_bytes(
                cache::mode_code(format.mode),
                cache::rotation_code(format.rotation),
                cache::mirror_code(format.mirror),
                button.width,
                button.height,
                button.samples@,
            ),
        ),
{
    picture::samples_make_the_button(button, picture.0, picture.1, picture.2, picture.3, scaled);
    picture::picture_settles_the_button(button, picture.0, picture.1, picture.2, picture.3);
}

/// A text comes to nothing unless it is a data URL of subtype `jpeg` with a body
/// that the decoder takes, for a format that can be written. It is bad data
/// unless it has such a body and the decoder does not panic on it.
pub proof fn other_texts_come_to_nothing(format: ImageFormat, text: Seq<char>)
    ensures
        button_data(format, text) is Some <==> {
            &&& is_encodable(format)
            &&& picture::data_url_subtype(text) == Some("jpeg"@)
            &&& picture::data_url_body(text) is Some
            &&& picture::jpeg_content(picture::data_url_body(text)->0) is Some
            &&& picture::jpeg_content(picture::data_url_body(text)->0)->0 is Some
        },
        is_bad_data(text) <==> {
            ||| picture::data_url_subtype(text) != Some("jpeg"@)
            ||| picture::data_url_body(text) is None
            ||| picture::jpeg_content(picture::data_url_body(text)->0) is None
        },
{
}

/// Every format is one that a black frame can be made for.
pub open spec fn paintable(formats: Seq<ImageFormat>) -> bool {
    forall|i: int|
        0 <= i < formats.len() ==> {
            let size = picture::button_size(#[trigger] formats[i]);
            frame::fits_memory(size.0, size.1)
        }
}

/// Buttons that pictures can be decoded for can be painted black too.
pub proof fn decodable_buttons_are_paintable(formats: Seq<ImageFormat>)
    requires
        forall|i: int| 0 <= i < formats.len() ==> picture::decodable(#[trigger] formats[i]),
    ensures
        paintable(formats),
{
    assert forall|i: int| 0 <= i < formats.len() implies {
        let size = picture::button_size(#[trigger] formats[i]);
        frame::fits_memory(size.0, size.1)
    } by {
        let size = picture::button_size(formats[i]);
        let width = picture::at_least_one(size.0);
        let height = picture::at_least_one(size.1);
        assert(picture::decodable(formats[i]));
        assert(size.0 * size.1 <= width * height) by (nonlinear_arith)
            requires
                0 <= size.0 <= width,
                0 <= size.1 <= height,
        ;
    }
}

/// What the device takes to black a button of the given format out.
pub open spec fn black_frame(format: ImageFormat) -> Seq<u8> {
    let size = picture::button_size(format);
    converted(format, size.0, size.1, frame::black_samples(size.0, size.1))
}

/// The bytes black a button of the given format out.
pub open spec fn blacks_out(data: Seq<u8>, format: ImageFormat) -> bool {
    &&& is_encodable(format)
    &&& data == black_frame(format)
    &&& has_length(data, format)
}

/// Makes the black frame of each button. This blocks its thread, so it must not
/// be reached from within a single-threaded runtime.
pub fn build_render_assets(button_formats: &Vec<ImageFormat>) -> (r: Result<
    Vec<Vec<u8>>,
    DeviceError,
>)
    requires
        paintable(button_formats@),
    ensures
        match r {
            Ok(frames) => {
                &&& frames@.len() == button_formats@.len()
                &&& forall|i: int|
                    0 <= i < frames@.len() ==> blacks_out(
                        #[trigger] frames@[i]@,
                        button_formats@[i],
                    )
                &&& forall|i: int, black: Seq<u8>|
                    #![trigger frames@[i], black.len()]
                    0 <= i < frames@.len() && black.len() == 3 * (button_formats@[i].size.0 as u32
                        * button_formats@[i].size.1 as u32) && (forall|k: int|
                        0 <= k < black.len() ==> black[k] == 0) ==> frames@[i]@ == converted_bytes(
                        cache::mode_code(button_formats@[i].mode),
                        cache::rotation_code(button_formats@[i].rotation),
                        cache::mirror_code(button_formats@[i].mirror),
                        button_formats@[i].size.0 as u32,
                        button_formats@[i].size.1 as u32,
                        black,
                    )
            },
            Err(err) => {
                &&& err is ImageError
                &&& exists|i: int|
                    0 <= i < button_formats@.len() && !is_encodable(
                        #[trigger] button_formats@[i],
                    )
            },
        },
{
    let mut frames: Vec<Vec<u8>> = Vec::new();
    let mut i: usize = 0;
    while i < button_formats.len()
        invariant
            paintable(button_formats@),
            i <= button_formats@.len(),
            frames@.len() == i,
            forall|j: int|
                0 <= j < i ==> blacks_out(#[trigger] frames@[j]@, button_formats@[j]),
        decreases button_formats@.len() - i,
    {
        let format = button_formats[i];
        let width: u32 = #[verifier::truncate]
        (format.size.0 as u32);
        let height: u32 = #[verifier::truncate]
        (format.size.1 as u32);
        let blank = blank_button_image(width, height);
        match convert_image_with_format_sync(format, blank) {
            Ok(data) => {
                assert(blacks_out(data@, button_formats@[i as int]));
                frames.push(data);
            },
            Err(err) => return Err(err),
        }
        i += 1;
    }
    proof {
        assert forall|i: int, black: Seq<u8>|
            #![trigger frames@[i], black.len()]
            0 <= i < frames@.len() && black.len() == 3 * (button_formats@[i].size.0 as u32
                * button_formats@[i].size.1 as u32) && (forall|k: int|
                0 <= k < black.len() ==> black[k] == 0) implies frames@[i]@ == converted_bytes(
            cache::mode_code(button_formats@[i].mode),
            cache::rotation_code(button_formats@[i].rotation),
            cache::mirror_code(button_formats@[i].mirror),
            button_formats@[i].size.0 as u32,
            button_formats@[i].size.1 as u32,
            black,
        ) by {
            assert(blacks_out(frames@[i]@, button_formats@[i]));
            black_buttons_take_black_bytes(button_formats@[i], black);
        }
    }
    Ok(frames)
}

/// What blacks a button out is what a frame of the button's size whose samples
/// are all zero is converted to.
pub proof fn black_buttons_take_black_bytes(format: ImageFormat, black: Seq<u8>)
    requires
        black.len() == 3 * (format.size.0 as u32 * format.size.1 as u32),
        forall|k: int| 0 <= k < black.len() ==> black[k] == 0,
    ensures
        black_frame(format) == converted_bytes(
            cache::mode_code(format.mode),
            cache::rotation_code(format.rotation),
            cache::mirror_code(format.mirror),
            format.size.0 as u32,
            format.size.1 as u32,
            black,
        ),
{
    let size = picture::button_size(format);
    assert(black =~= frame::black_samples(size.0, size.1));
}

/// Buttons that take JPEG pictures of an ordinary size can always be blacked
/// out.
pub proof fn jpeg_buttons_have_black_frames(format: ImageFormat)
    requires
        format.mode is JPEG,
        1 <= format.size.0 <= 65535,
        1 <= format.size.1 <= 65535,
    ensures
        is_encodable(format),
{
}

} // verus!
