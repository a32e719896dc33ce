//! Pictures: from what the host sends for a button to what the device draws.

use image::{DynamicImage, ImageBuffer};
use tokio::runtime::Builder;
use vstd::prelude::*;

use crate::error::DeviceError;
use crate::frame;
use crate::frame::{
    apply_rounded_corners, blank_button_image, RgbFrame, BUTTON_CORNER_RADIUS,
};
use crate::mappings::ImageFormat;

verus! {

/// The longest side that a JPEG picture can have.
pub const JPEG_SIDE_LIMIT: u32 = 65535;

/// A bitmap in shades of grey, eight bits each, row by row.
#[derive(Debug, PartialEq, Eq)]
pub struct LumaFrame {
    pub width: u32,
    pub height: u32,
    pub samples: Vec<u8>,
}

/// A decoded picture.
#[derive(Debug, PartialEq, Eq)]
pub enum Picture {
    Luma8(LumaFrame),
    Rgb8(RgbFrame),
}

/// Samples per pixel.
pub open spec fn channels(gray: bool) -> int {
    if gray {
        1
    } else {
        3
    }
}

impl Picture {
    pub open spec fn gray(self) -> bool {
        self is Luma8
    }

    pub open spec fn width(self) -> u32 {
        match self {
            Picture::Luma8(frame) => frame.width,
            Picture::Rgb8(frame) => frame.width,
        }
    }

    pub open spec fn height(self) -> u32 {
        match self {
            Picture::Luma8(frame) => frame.height,
            Picture::Rgb8(frame) => frame.height,
        }
    }

    pub open spec fn samples(self) -> Seq<u8> {
        match self {
            Picture::Luma8(frame) => frame.samples@,
            Picture::Rgb8(frame) => frame.samples@,
        }
    }

    pub open spec fn wf(self) -> bool {
        self.samples().len() == channels(self.gray()) * (self.width() * self.height())
    }

    /// The sides are as long as a JPEG picture's can be.
    pub open spec fn jpeg_sized(self) -> bool {
        self.width() <= JPEG_SIDE_LIMIT && self.height() <= JPEG_SIDE_LIMIT
    }
}

/// The error of `data_url` for text that is no data URL.
#[verifier::external_type_specification]
#[verifier::external_body]
pub struct ExDataUrlError(data_url::DataUrlError);

/// The error of `data_url` for a body that is not base64.
#[verifier::external_type_specification]
#[verifier::external_body]
pub struct ExInvalidBase64(data_url::forgiving_base64::InvalidBase64);

/// The subtype of the media type of a data URL, as `data_url::DataUrl::process`
/// and `mime_type` read it; `None` if the text is no data URL.
pub uninterp spec fn data_url_subtype(text: Seq<char>) -> Option<Seq<char>>;

/// The decoded body of a data URL, as `data_url::DataUrl::decode_to_vec` reads
/// it; `None` if the body is marked as base64 and is not.
pub uninterp spec fn data_url_body(text: Seq<char>) -> Option<Seq<u8>>;

/// Calls `data_url::DataUrl::process` and, on the URL, `mime_type` and
/// `decode_to_vec`. Trusted: the subtype and the body depend on the text
/// alone, as `data_url_subtype` and `data_url_body` name them.
#[verifier::external_body]
fn read_data_url(text: &str) -> (r: Result<
    (String, Result<Vec<u8>, data_url::forgiving_base64::InvalidBase64>),
    data_url::DataUrlError,
>)
    ensures
        r is Ok <==> data_url_subtype(text@) is Some,
        r matches Ok(parts) ==> {
            &&& data_url_subtype(text@) == Some(parts.0@)
            &&& parts.1 is Ok <==> data_url_body(text@) is Some
            &&& parts.1 matches Ok(body) ==> data_url_body(text@) == Some(body@)
        },
{
    let url = data_url::DataUrl::process(text)?;
    let body = url.decode_to_vec().map(|decoded| decoded.0);
    Ok((url.mime_type().subtype.clone(), body))
}

/// A number of two bytes, the higher one first.
pub open spec fn big_endian(file: Seq<u8>, at: int) -> int {
    256 * file[at] + file[at + 1]
}

/// The marker of a frame header: baseline, extended or progressive.
pub open spec fn is_frame_marker(marker: u8) -> bool {
    0xc0 <= marker <= 0xc2
}

/// The markers that the decoder does not pass over: those of frame headers, the
/// start of a scan, the end of the picture, and two that it does not know what
/// to do with.
pub open spec fn is_stop(marker: u8) -> bool {
    is_frame_marker(marker) || marker == 0xda || marker == 0xd9 || marker == 0xcc || marker == 0xdc
}

/// The bytes that the decoder takes for a segment, behind its marker. They are
/// as many as the segment gives, except that five bytes of a first application
/// segment are read in one go where it gives six, which is one too many.
pub open spec fn segment_length(file: Seq<u8>, at: int) -> int {
    let length = big_endian(file, at + 2);
    if file[at + 1] == 0xe0 && length == 6 {
        7
    } else {
        length
    }
}

/// Where the decoder stops in a JPEG file that it reads from the given place
/// on, segment by segment.
pub open spec fn next_stop(file: Seq<u8>, at: int) -> Option<int>
    decreases file.len() - at,
{
    if file.len() < at + 2 {
        None
    } else if file[at] != 0xff || file[at + 1] == 0xff || file[at + 1] == 0 {
        next_stop(file, at + 1)
    } else if is_stop(file[at + 1]) {
        Some(at)
    } else if file.len() < at + 4 || big_endian(file, at + 2) < 2 || file.len() < at + 2
        + segment_length(file, at) {
        None
    } else {
        next_stop(file, at + 2 + segment_length(file, at))
    }
}

/// The horizontal sampling factor of a component, by where the frame header
/// starts.
pub open spec fn horizontal_factor(file: Seq<u8>, header: int, component: int) -> int {
    file[header + 11 + 3 * component] as int / 16
}

/// A later component of the frame is sampled more finely across than the first.
pub open spec fn has_finer_component(file: Seq<u8>, header: int) -> bool {
    &&& header + 10 + 3 * file[header + 9] <= file.len()
    &&& exists|i: int|
        0 <= i < file[header + 9] && #[trigger] horizontal_factor(file, header, i)
            > horizontal_factor(file, header, 0)
}

/// The first scan of a JPEG file, behind the given frame header, lacks some of
/// the frame's components.
pub open spec fn lacks_components(file: Seq<u8>, header: int) -> bool {
    match next_stop(file, header + 2 + big_endian(file, header + 2)) {
        Some(scan) => {
            &&& file[scan + 1] == 0xda
            &&& scan + 5 <= file.len()
            &&& file[scan + 4] != file[header + 9]
        },
        None => false,
    }
}

/// Whether the decoder panics on a JPEG file can rest on the machine: the file
/// is not progressive, has its components in several scans, and does not start
/// with the finest one.
pub open spec fn rests_on_machine(file: Seq<u8>) -> bool {
    match next_stop(file, 2) {
        Some(header) => {
            &&& file[header + 1] == 0xc0 || file[header + 1] == 0xc1
            &&& header + 10 <= file.len()
            &&& has_finer_component(file, header)
            &&& lacks_components(file, header)
        },
        None => false,
    }
}

/// What `image::load_from_memory_with_format` makes of a JPEG file: whether it
/// is in shades of grey, its width, its height and its samples. `Some(None)` if
/// it returns an error, `None` if it panics.
pub uninterp spec fn jpeg_content(bytes: Seq<u8>) -> Option<Option<(bool, u32, u32, Seq<u8>)>>;

/// Calls `image::load_from_memory_with_format` for a JPEG file, in a task of its
/// own: `tokio::runtime::Runtime::spawn_blocking` starts it, on a runtime that
/// has no drivers and so is always there to be had, and
/// `futures_lite::future::block_on` waits for it. Trusted: what comes back
/// depends on the bytes alone, as `jpeg_content` names it. A picture is in
/// shades of grey or in colour, eight bits per channel, its sides are within
/// what JPEG can express, and its samples are as many as its size asks for.
///
/// There are broken files on which the decoder, `zune_jpeg`, panics. This ends
/// the task, not the caller, and is handed back as `None`. Where components
/// come in several scans and a later one is finer than the first, the decoder
/// writes past a row's end; its code for plain machines drops some of what
/// does not fit, where that for vector units panics. So nothing is said of a
/// panic there. In builds with overflow checks the decoder panics on more
/// files; they are handed back as `None` likewise, and the name stands for what
/// the build at hand does.
///
/// The call blocks its thread, and it is taken that panics unwind, and that the
/// system grants a thread.
#[verifier::external_body]
fn load_jpeg(bytes: &[u8]) -> (r: Option<Result<Picture, image::ImageError>>)
    ensures
        match r {
            Some(Ok(picture)) => {
                &&& picture.wf()
                &&& picture.jpeg_sized()
                &&& jpeg_content(bytes@) == Some(
                    Some((picture.gray(), picture.width(), picture.height(), picture.samples())),
                )
            },
            Some(Err(_)) => jpeg_content(bytes@) == Some(None::<(bool, u32, u32, Seq<u8>)>),
            None => jpeg_content(bytes@) is None || rests_on_machine(bytes@),
        },
{
    let file = bytes.to_vec();
    let runtime = Builder::new_current_thread().build().unwrap();
    let task = runtime.spawn_blocking(move || image::load_from_memory_with_format(&file, image::ImageFormat::Jpeg));
    let loaded = futures_lite::future::block_on(tokio::task::unconstrained(task));
    runtime.shutdown_background();
    match loaded.ok()? {
        Ok(DynamicImage::ImageLuma8(b)) => {
            Some(Ok(Picture::Luma8(LumaFrame { width: b.width(), height: b.height(), samples: b.into_raw() })))
        }
        Ok(other) => {
            let b = other.into_rgb8();
            Some(Ok(Picture::Rgb8(RgbFrame { width: b.width(), height: b.height(), samples: b.into_raw() })))
        }
        Err(err) => Some(Err(err)),
    }
}

pub open spec fn at_least_one(side: u32) -> u32 {
    if side == 0 {
        1
    } else {
        side
    }
}

/// Scaling a picture of the given width into the given bounds stays within
/// memory, the intermediate bitmap in floating point counted too.
pub open spec fn scalable(width: u32, nwidth: u32, nheight: u32) -> bool {
    &&& 16 * (width * at_least_one(nheight)) <= isize::MAX
    &&& 3 * (at_least_one(nwidth) * at_least_one(nheight)) <= isize::MAX
}

/// A picture of the given size was scaled as far as the bounds allow: one side
/// is as long as its bound, and the other follows in proportion, to the pixel
/// next to it, and is never nothing.
pub open spec fn fills_bounds(
    width: u32,
    height: u32,
    nwidth: u32,
    nheight: u32,
    scaled_width: u32,
    scaled_height: u32,
) -> bool {
    ||| scaled_width == nwidth && follows(scaled_height, height, nwidth, width)
    ||| scaled_height == nheight && follows(scaled_width, width, nheight, height)
}

/// The scaled side is within a pixel of `side * target / base`, or is one.
pub open spec fn follows(scaled: u32, side: u32, target: u32, base: u32) -> bool {
    scaled == 1 || (scaled - 1) * base <= side * target <= (scaled + 1) * base
}

/// What `image::DynamicImage::resize` makes of a picture with its triangle
/// filter: the width, the height and the samples of the scaled picture.
pub uninterp spec fn scaled_content(
    gray: bool,
    width: u32,
    height: u32,
    samples: Seq<u8>,
    nwidth: u32,
    nheight: u32,
) -> (u32, u32, Seq<u8>);

/// Calls `image::DynamicImage::resize` with the triangle filter. Trusted: the
/// scaled picture depends on the picture and the bounds alone, as
/// `scaled_content` names it; it has the same channels and as many samples as
/// its size asks for; it lies within the bounds, or has sides of one pixel
/// where a bound is zero; where nothing is empty it fills the bounds as far as
/// its proportions allow; and a picture of just the size asked for is handed
/// back as it is.
#[verifier::external_body]
fn resize(picture: Picture, nwidth: u32, nheight: u32) -> (r: Picture)
    requires
        picture.wf(),
        picture.jpeg_sized(),
        scalable(picture.width(), nwidth, nheight),
    ensures
        r.wf(),
        r.gray() == picture.gray(),
        (r.width(), r.height(), r.samples()) == scaled_content(
            picture.gray(),
            picture.width(),
            picture.height(),
            picture.samples(),
            nwidth,
            nheight,
        ),
        r.width() <= at_least_one(nwidth),
        r.height() <= at_least_one(nheight),
        picture.width() > 0 && picture.height() > 0 && nwidth > 0 && nheight > 0 ==> fills_bounds(
            picture.width(),
            picture.height(),
            nwidth,
            nheight,
            r.width(),
            r.height(),
        ),
        picture.width() == nwidth && picture.height() == nheight ==> r.samples()
            == picture.samples() && r.width() == nwidth && r.height() == nheight,
{
    let image = match picture {
        Picture::Luma8(f) => ImageBuffer::from_raw(f.width, f.height, f.samples).map(DynamicImage::ImageLuma8),
        Picture::Rgb8(f) => ImageBuffer::from_raw(f.width, f.height, f.samples).map(DynamicImage::ImageRgb8),
    };
    match image.unwrap().resize(nwidth, nheight, image::imageops::FilterType::Triangle) {
        DynamicImage::ImageLuma8(b) => {
            Picture::Luma8(LumaFrame { width: b.width(), height: b.height(), samples: b.into_raw() })
        }
        other => {
            let b = other.into_rgb8();
            Picture::Rgb8(RgbFrame { width: b.width(), height: b.height(), samples: b.into_raw() })
        }
    }
}

/// Calls `image::DynamicImage::to_rgb8`. Trusted: a picture in colour is
/// handed back as it is; of one in shades of grey each sample is taken three
/// times.
#[verifier::external_body]
fn to_rgb8(picture: Picture) -> (r: RgbFrame)
    requires
        picture.wf(),
        3 * (picture.width() * picture.height()) <= isize::MAX,
    ensures
        r.wf(),
        r.width == picture.width(),
        r.height == picture.height(),
        !picture.gray() ==> r.samples@ == picture.samples(),
        picture.gray() ==> forall|i: int|
            0 <= i < r.samples@.len() ==> #[trigger] r.samples@[i] == picture.samples()[i / 3],
{
    let image = match picture {
        Picture::Luma8(f) => ImageBuffer::from_raw(f.width, f.height, f.samples).map(DynamicImage::ImageLuma8),
        Picture::Rgb8(f) => ImageBuffer::from_raw(f.width, f.height, f.samples).map(DynamicImage::ImageRgb8),
    };
    let b = image.unwrap().to_rgb8();
    RgbFrame { width: b.width(), height: b.height(), samples: b.into_raw() }
}

/// A pixel of a picture that is given by its parts.
pub open spec fn content_pixel(gray: bool, width: u32, samples: Seq<u8>, x: int, y: int) -> frame::Pixel {
    let at = channels(gray) * (y * width + x);
    if gray {
        (samples[at], samples[at], samples[at])
    } else {
        (samples[at], samples[at + 1], samples[at + 2])
    }
}

/// How far a picture is moved in to stand in the middle.
pub open spec fn margin(outer: u32, inner: u32) -> int {
    if inner <= outer {
        (outer - inner) / 2
    } else {
        0
    }
}

/// A pixel of a button of the given size with the given picture in its middle:
/// black round the picture and outside the rounded corners. A picture that is
/// larger than the button is not shown.
pub open spec fn button_pixel(
    width: u32,
    height: u32,
    gray: bool,
    inner_width: u32,
    inner_height: u32,
    samples: Seq<u8>,
    x: int,
    y: int,
) -> frame::Pixel {
    let left = margin(width, inner_width);
    let top = margin(height, inner_height);
    if frame::rounded_off(width, height, BUTTON_CORNER_RADIUS, x, y) {
        frame::black()
    } else if inner_width <= width && inner_height <= height && left <= x < left + inner_width
        && top <= y < top + inner_height {
        content_pixel(gray, inner_width, samples, x - left, y - top)
    } else {
        frame::black()
    }
}

impl RgbFrame {
    /// This frame is a button with the given picture in its middle.
    pub open spec fn is_button_of(
        self,
        gray: bool,
        inner_width: u32,
        inner_height: u32,
        samples: Seq<u8>,
    ) -> bool {
        &&& self.wf()
        &&& forall|x: int, y: int| #[trigger]
            self.has(x, y) ==> self.pixel(x, y) == button_pixel(
                self.width,
                self.height,
                gray,
                inner_width,
                inner_height,
                samples,
                x,
                y,
            )
    }

    /// This frame is a button that shows the given picture, scaled to fit.
    pub open spec fn is_normalized(
        self,
        gray: bool,
        picture_width: u32,
        picture_height: u32,
        samples: Seq<u8>,
    ) -> bool {
        let scaled = scaled_content(
            gray,
            picture_width,
            picture_height,
            samples,
            self.width,
            self.height,
        );
        self.is_button_of(gray, scaled.0, scaled.1, scaled.2)
    }
}

/// The samples of a button of the given size that shows the given picture,
/// scaled to fit.
pub open spec fn normalized_samples(
    width: u32,
    height: u32,
    gray: bool,
    picture_width: u32,
    picture_height: u32,
    samples: Seq<u8>,
) -> Seq<u8> {
    let scaled = scaled_content(gray, picture_width, picture_height, samples, width, height);
    frame::painted(
        width,
        height,
        |x: int, y: int|
            button_pixel(width, height, gray, scaled.0, scaled.1, scaled.2, x, y),
    )
}

/// The picture and the size settle every sample of the button.
pub proof fn picture_settles_the_button(
    button: RgbFrame,
    gray: bool,
    picture_width: u32,
    picture_height: u32,
    samples: Seq<u8>,
)
    requires
        button.is_normalized(gray, picture_width, picture_height, samples),
    ensures
        button.samples@ == normalized_samples(
            button.width,
            button.height,
            gray,
            picture_width,
            picture_height,
            samples,
        ),
{
    let scaled = scaled_content(
        gray,
        picture_width,
        picture_height,
        samples,
        button.width,
        button.height,
    );
    frame::pixels_make_the_frame(
        button,
        |x: int, y: int|
            button_pixel(
                button.width,
                button.height,
                gray,
                scaled.0,
                scaled.1,
                scaled.2,
                x,
                y,
            ),
    );
}

proof fn lemma_content_pixel(picture: Picture, frame: RgbFrame, x: int, y: int)
    requires
        picture.wf(),
        frame.wf(),
        frame.width == picture.width(),
        frame.height == picture.height(),
        !picture.gray() ==> frame.samples@ == picture.samples(),
        picture.gray() ==> forall|i: int|
            0 <= i < frame.samples@.len() ==> #[trigger] frame.samples@[i] == picture.samples()[i
                / 3],
        frame.has(x, y),
    ensures
        frame.pixel(x, y) == content_pixel(
            picture.gray(),
            picture.width(),
            picture.samples(),
            x,
            y,
        ),
{
    frame::lemma_sample_index(frame.width, frame.height, x, y);
}

/// A button with a picture in its middle: at every pixel that lies within the
/// picture's place and is not rounded off, the button's samples are the
/// picture's, red before green before blue, or thrice its one sample where it
/// is in shades of grey; at every other pixel they are zero. The place starts
/// half of the room that the picture leaves from the upper left corner.
pub proof fn buttons_show_their_picture(
    button: RgbFrame,
    gray: bool,
    inner_width: u32,
    inner_height: u32,
    samples: Seq<u8>,
)
    requires
        button.is_button_of(gray, inner_width, inner_height, samples),
    ensures
        button.samples@.len() == 3 * (button.width * button.height),
        forall|x: int, y: int| #[trigger] button.has(x, y) <==> 0 <= x < button.width && 0 <= y < button.height,
        forall|r: int, x: int, y: int|
            #![trigger frame::outside_rounded_rect(x, y, button.width as int, button.height as int, r)]
            0 <= r <= 16 && 2 * r <= button.width && 2 * r <= button.height && (r == 16
                || button.width < 2 * r + 2 || button.height < 2 * r + 2) && 0 <= x < button.width
                && 0 <= y < button.height ==> {
                frame::outside_rounded_rect(x, y, button.width as int, button.height as int, r)
                    ==> {
                    &&& button.samples@[3 * (y * button.width + x)] == 0
                    &&& button.samples@[3 * (y * button.width + x) + 1] == 0
                    &&& button.samples@[3 * (y * button.width + x) + 2] == 0
                }
            },
        forall|x: int, y: int| #[trigger]
            button.has(x, y) && (button.width < inner_width || button.height < inner_height
                || x < (button.width - inner_width) / 2 || (button.width - inner_width) / 2 + inner_width <= x
                || y < (button.height - inner_height) / 2 || (button.height - inner_height) / 2 + inner_height <= y) ==> {
                &&& button.samples@[3 * (y * button.width + x)] == 0
                &&& button.samples@[3 * (y * button.width + x) + 1] == 0
                &&& button.samples@[3 * (y * button.width + x) + 2] == 0
            },
        forall|r: int, x: int, y: int|
            #![trigger frame::outside_rounded_rect(x, y, button.width as int, button.height as int, r)]
            0 <= r <= 16 && 2 * r <= button.width && 2 * r <= button.height && (r == 16
                || button.width < 2 * r + 2 || button.height < 2 * r + 2) && 0 <= x < button.width
                && 0 <= y < button.height ==> {
                let left = (button.width - inner_width) / 2;
                let top = (button.height - inner_height) / 2;
                !gray && !frame::outside_rounded_rect(x, y, button.width as int, button.height as int, r)
                    && inner_width <= button.width && inner_height <= button.height && left <= x < left + inner_width
                    && top <= y < top + inner_height
                    ==> {
                    &&& button.samples@[3 * (y * button.width + x)]
                        == samples[3 * ((y - top) * inner_width + (x - left))]
                    &&& button.samples@[3 * (y * button.width + x) + 1]
                        == samples[3 * ((y - top) * inner_width + (x - left)) + 1]
                    &&& button.samples@[3 * (y * button.width + x) + 2]
                        == samples[3 * ((y - top) * inner_width + (x - left)) + 2]
                }
            },
        forall|r: int, x: int, y: int|
            #![trigger frame::outside_rounded_rect(x, y, button.width as int, button.height as int, r)]
            0 <= r <= 16 && 2 * r <= button.width && 2 * r <= button.height && (r == 16
                || button.width < 2 * r + 2 || button.height < 2 * r + 2) && 0 <= x < button.width
                && 0 <= y < button.height ==> {
                let left = (button.width - inner_width) / 2;
                let top = (button.height - inner_height) / 2;
                gray && !frame::outside_rounded_rect(x, y, button.width as int, button.height as int, r)
                    && inner_width <= button.width && inner_height <= button.height && left <= x < left + inner_width
                    && top <= y < top + inner_height
                    ==> {
                    &&& button.samples@[3 * (y * button.width + x)]
                        == samples[(y - top) * inner_width + (x - left)]
                    &&& button.samples@[3 * (y * button.width + x) + 1]
                        == samples[(y - top) * inner_width + (x - left)]
                    &&& button.samples@[3 * (y * button.width + x) + 2]
                        == samples[(y - top) * inner_width + (x - left)]
                }
            },
{
    assert forall|r: int, x: int, y: int|
        #![trigger frame::outside_rounded_rect(x, y, button.width as int, button.height as int, r)]
        0 <= r <= 16 && 2 * r <= button.width && 2 * r <= button.height && (r == 16
            || button.width < 2 * r + 2 || button.height < 2 * r + 2) && 0 <= x < button.width
            && 0 <= y < button.height implies {
            frame::outside_rounded_rect(x, y, button.width as int, button.height as int, r)
                ==> {
                &&& button.samples@[3 * (y * button.width + x)] == 0
                &&& button.samples@[3 * (y * button.width + x) + 1] == 0
                &&& button.samples@[3 * (y * button.width + x) + 2] == 0
            }
        } by {
        assert(frame::effective_radius(button.width, button.height, BUTTON_CORNER_RADIUS) == r);
        assert(button.has(x, y));
        assert(frame::sample_index(button.width, x, y) == 3 * (y * button.width + x));
    }
    assert forall|x: int, y: int| #[trigger]
        button.has(x, y) && (button.width < inner_width || button.height < inner_height
            || x < (button.width - inner_width) / 2 || (button.width - inner_width) / 2 + inner_width <= x
            || y < (button.height - inner_height) / 2 || (button.height - inner_height) / 2 + inner_height <= y) implies {
            &&& button.samples@[3 * (y * button.width + x)] == 0
            &&& button.samples@[3 * (y * button.width + x) + 1] == 0
            &&& button.samples@[3 * (y * button.width + x) + 2] == 0
        } by {
        assert(button.has(x, y));
        assert(frame::sample_index(button.width, x, y) == 3 * (y * button.width + x));
    }
    assert forall|r: int, x: int, y: int|
        #![trigger frame::outside_rounded_rect(x, y, button.width as int, button.height as int, r)]
        0 <= r <= 16 && 2 * r <= button.width && 2 * r <= button.height && (r == 16
            || button.width < 2 * r + 2 || button.height < 2 * r + 2) && 0 <= x < button.width
            && 0 <= y < button.height implies {
            let left = (button.width - inner_width) / 2;
            let top = (button.height - inner_height) / 2;
            !gray && !frame::outside_rounded_rect(x, y, button.width as int, button.height as int, r)
                && inner_width <= button.width && inner_height <= button.height && left <= x < left + inner_width
                && top <= y < top + inner_height
                ==> {
                &&& button.samples@[3 * (y * button.width + x)]
                    == samples[3 * ((y - top) * inner_width + (x - left))]
                &&& button.samples@[3 * (y * button.width + x) + 1]
                    == samples[3 * ((y - top) * inner_width + (x - left)) + 1]
                &&& button.samples@[3 * (y * button.width + x) + 2]
                    == samples[3 * ((y - top) * inner_width + (x - left)) + 2]
            }
        } by {
        assert(frame::effective_radius(button.width, button.height, BUTTON_CORNER_RADIUS) == r);
        assert(button.has(x, y));
        assert(frame::sample_index(button.width, x, y) == 3 * (y * button.width + x));
    }
    assert forall|r: int, x: int, y: int|
        #![trigger frame::outside_rounded_rect(x, y, button.width as int, button.height as int, r)]
        0 <= r <= 16 && 2 * r <= button.width && 2 * r <= button.height && (r == 16
            || button.width < 2 * r + 2 || button.height < 2 * r + 2) && 0 <= x < button.width
            && 0 <= y < button.height implies {
            let left = (button.width - inner_width) / 2;
            let top = (button.height - inner_height) / 2;
            gray && !frame::outside_rounded_rect(x, y, button.width as int, button.height as int, r)
                && inner_width <= button.width && inner_height <= button.height && left <= x < left + inner_width
                && top <= y < top + inner_height
                ==> {
                &&& button.samples@[3 * (y * button.width + x)]
                    == samples[(y - top) * inner_width + (x - left)]
                &&& button.samples@[3 * (y * button.width + x) + 1]
                    == samples[(y - top) * inner_width + (x - left)]
                &&& button.samples@[3 * (y * button.width + x) + 2]
                    == samples[(y - top) * inner_width + (x - left)]
            }
        } by {
        assert(frame::effective_radius(button.width, button.height, BUTTON_CORNER_RADIUS) == r);
        assert(button.has(x, y));
        assert(frame::sample_index(button.width, x, y) == 3 * (y * button.width + x));
    }
}

/// The parts of a picture are those of the bitmap that it is.
pub proof fn pictures_are_their_bitmaps(picture: Picture)
    ensures
        picture matches Picture::Luma8(bitmap) ==> {
            &&& picture.gray()
            &&& picture.width() == bitmap.width
            &&& picture.height() == bitmap.height
            &&& picture.samples() == bitmap.samples@
        },
        picture matches Picture::Rgb8(bitmap) ==> {
            &&& !picture.gray()
            &&& picture.width() == bitmap.width
            &&& picture.height() == bitmap.height
            &&& picture.samples() == bitmap.samples@
        },
{
}

/// A button that shows a picture shows it as it was scaled to the button's own
/// size, in its middle and sample by sample.
pub proof fn buttons_show_what_was_scaled_for_them(
    button: RgbFrame,
    gray: bool,
    picture_width: u32,
    picture_height: u32,
    samples: Seq<u8>,
    scaled: (u32, u32, Seq<u8>),
)
    requires
        button.is_normalized(gray, picture_width, picture_height, samples),
        scaled == scaled_content(
            gray,
            picture_width,
            picture_height,
            samples,
            button.width,
            button.height,
        ),
    ensures
        button.samples@.len() == 3 * (button.width * button.height),
        forall|x: int, y: int| #[trigger] button.has(x, y) <==> 0 <= x < button.width && 0 <= y < button.height,
        forall|r: int, x: int, y: int|
            #![trigger frame::outside_rounded_rect(x, y, button.width as int, button.height as int, r)]
            0 <= r <= 16 && 2 * r <= button.width && 2 * r <= button.height && (r == 16
                || button.width < 2 * r + 2 || button.height < 2 * r + 2) && 0 <= x < button.width
                && 0 <= y < button.height ==> {
                frame::outside_rounded_rect(x, y, button.width as int, button.height as int, r)
                    ==> {
                    &&& button.samples@[3 * (y * button.width + x)] == 0
                    &&& button.samples@[3 * (y * button.width + x) + 1] == 0
                    &&& button.samples@[3 * (y * button.width + x) + 2] == 0
                }
            },
        forall|x: int, y: int| #[trigger]
            button.has(x, y) && (button.width < scaled.0 || button.height < scaled.1
                || x < (button.width - scaled.0) / 2 || (button.width - scaled.0) / 2 + scaled.0 <= x
                || y < (button.height - scaled.1) / 2 || (button.height - scaled.1) / 2 + scaled.1 <= y) ==> {
                &&& button.samples@[3 * (y * button.width + x)] == 0
                &&& button.samples@[3 * (y * button.width + x) + 1] == 0
                &&& button.samples@[3 * (y * button.width + x) + 2] == 0
            },
        forall|r: int, x: int, y: int|
            #![trigger frame::outside_rounded_rect(x, y, button.width as int, button.height as int, r)]
            0 <= r <= 16 && 2 * r <= button.width && 2 * r <= button.height && (r == 16
                || button.width < 2 * r + 2 || button.height < 2 * r + 2) && 0 <= x < button.width
                && 0 <= y < button.height ==> {
                let left = (button.width - scaled.0) / 2;
                let top = (button.height - scaled.1) / 2;
                !gray && !frame::outside_rounded_rect(x, y, button.width as int, button.height as int, r)
                    && scaled.0 <= button.width && scaled.1 <= button.height && left <= x < left + scaled.0
                    && top <= y < top + scaled.1
                    ==> {
                    &&& button.samples@[3 * (y * button.width + x)]
                        == scaled.2[3 * ((y - top) * scaled.0 + (x - left))]
                    &&& button.samples@[3 * (y * button.width + x) + 1]
                        == scaled.2[3 * ((y - top) * scaled.0 + (x - left)) + 1]
                    &&& button.samples@[3 * (y * button.width + x) + 2]
                        == scaled.2[3 * ((y - top) * scaled.0 + (x - left)) + 2]
                }
            },
        forall|r: int, x: int, y: int|
            #![trigger frame::outside_rounded_rect(x, y, button.width as int, button.height as int, r)]
            0 <= r <= 16 && 2 * r <= button.width && 2 * r <= button.height && (r == 16
                || button.width < 2 * r + 2 || button.height < 2 * r + 2) && 0 <= x < button.width
                && 0 <= y < button.height ==> {
                let left = (button.width - scaled.0) / 2;
                let top = (button.height - scaled.1) / 2;
                gray && !frame::outside_rounded_rect(x, y, button.width as int, button.height as int, r)
                    && scaled.0 <= button.width && scaled.1 <= button.height && left <= x < left + scaled.0
                    && top <= y < top + scaled.1
                    ==> {
                    &&& button.samples@[3 * (y * button.width + x)]
                        == scaled.2[(y - top) * scaled.0 + (x - left)]
                    &&& button.samples@[3 * (y * button.width + x) + 1]
                        == scaled.2[(y - top) * scaled.0 + (x - left)]
                    &&& button.samples@[3 * (y * button.width + x) + 2]
                        == scaled.2[(y - top) * scaled.0 + (x - left)]
                }
            },
{
    buttons_show_their_picture(button, gray, scaled.0, scaled.1, scaled.2);
}

/// The samples say it all: a bitmap whose samples are those of the scaled
/// picture within its place, and zero outside it and where corners are rounded
/// off, is the button that shows the picture.
pub proof fn samples_make_the_button(
    button: RgbFrame,
    gray: bool,
    picture_width: u32,
    picture_height: u32,
    samples: Seq<u8>,
    scaled: (u32, u32, Seq<u8>),
)
    requires
        scaled == scaled_content(
            gray,
            picture_width,
            picture_height,
            samples,
            button.width,
            button.height,
        ),
        button.samples@.len() == 3 * (button.width * button.height),
        forall|r: int, x: int, y: int|
            #![trigger frame::outside_rounded_rect(x, y, button.width as int, button.height as int, r)]
            0 <= r <= 16 && 2 * r <= button.width && 2 * r <= button.height && (r == 16
                || button.width < 2 * r + 2 || button.height < 2 * r + 2) && 0 <= x < button.width
                && 0 <= y < button.height ==> {
                frame::outside_rounded_rect(x, y, button.width as int, button.height as int, r)
                    ==> {
                    &&& button.samples@[3 * (y * button.width + x)] == 0
                    &&& button.samples@[3 * (y * button.width + x) + 1] == 0
                    &&& button.samples@[3 * (y * button.width + x) + 2] == 0
                }
            },
        forall|x: int, y: int| #[trigger]
            button.has(x, y) && (button.width < scaled.0 || button.height < scaled.1
                || x < (button.width - scaled.0) / 2 || (button.width - scaled.0) / 2 + scaled.0 <= x
                || y < (button.height - scaled.1) / 2 || (button.height - scaled.1) / 2 + scaled.1 <= y) ==> {
                &&& button.samples@[3 * (y * button.width + x)] == 0
                &&& button.samples@[3 * (y * button.width + x) + 1] == 0
                &&& button.samples@[3 * (y * button.width + x) + 2] == 0
            },
        forall|r: int, x: int, y: int|
            #![trigger frame::outside_rounded_rect(x, y, button.width as int, button.height as int, r)]
            0 <= r <= 16 && 2 * r <= button.width && 2 * r <= button.height && (r == 16
                || button.width < 2 * r + 2 || button.height < 2 * r + 2) && 0 <= x < button.width
                && 0 <= y < button.height ==> {
                let left = (button.width - scaled.0) / 2;
                let top = (button.height - scaled.1) / 2;
                !gray && !frame::outside_rounded_rect(x, y, button.width as int, button.height as int, r)
                    && scaled.0 <= button.width && scaled.1 <= button.height && left <= x < left + scaled.0
                    && top <= y < top + scaled.1
                    ==> {
                    &&& button.samples@[3 * (y * button.width + x)]
                        == scaled.2[3 * ((y - top) * scaled.0 + (x - left))]
                    &&& button.samples@[3 * (y * button.width + x) + 1]
                        == scaled.2[3 * ((y - top) * scaled.0 + (x - left)) + 1]
                    &&& button.samples@[3 * (y * button.width + x) + 2]
                        == scaled.2[3 * ((y - top) * scaled.0 + (x - left)) + 2]
                }
            },
        forall|r: int, x: int, y: int|
            #![trigger frame::outside_rounded_rect(x, y, button.width as int, button.height as int, r)]
            0 <= r <= 16 && 2 * r <= button.width && 2 * r <= button.height && (r == 16
                || button.width < 2 * r + 2 || button.height < 2 * r + 2) && 0 <= x < button.width
                && 0 <= y < button.height ==> {
                let left = (button.width - scaled.0) / 2;
                let top = (button.height - scaled.1) / 2;
                gray && !frame::outside_rounded_rect(x, y, button.width as int, button.height as int, r)
                    && scaled.0 <= button.width && scaled.1 <= button.height && left <= x < left + scaled.0
                    && top <= y < top + scaled.1
                    ==> {
                    &&& button.samples@[3 * (y * button.width + x)]
                        == scaled.2[(y - top) * scaled.0 + (x - left)]
                    &&& button.samples@[3 * (y * button.width + x) + 1]
                        == scaled.2[(y - top) * scaled.0 + (x - left)]
                    &&& button.samples@[3 * (y * button.width + x) + 2]
                        == scaled.2[(y - top) * scaled.0 + (x - left)]
                }
            },
    ensures
        button.is_normalized(gray, picture_width, picture_height, samples),
{
    assert forall|x: int, y: int| #[trigger] button.has(x, y) implies button.pixel(x, y)
        == button_pixel(
        button.width,
        button.height,
        gray,
        scaled.0,
        scaled.1,
        scaled.2,
        x,
        y,
    ) by {
        let r = frame::effective_radius(button.width, button.height, BUTTON_CORNER_RADIUS) as int;
        let off = frame::outside_rounded_rect(
            x,
            y,
            button.width as int,
            button.height as int,
            r,
        );
        assert(off == frame::rounded_off(
            button.width,
            button.height,
            BUTTON_CORNER_RADIUS,
            x,
            y,
        ));
        assert(frame::sample_index(button.width, x, y) == 3 * (y * button.width + x));
    }
}

/// Places a picture that is already scaled in the middle of a black button of
/// the given size, and rounds the button's corners.
pub fn place_on_button(picture: Picture, width: u32, height: u32) -> (button: RgbFrame)
    requires
        picture.wf(),
        3 * (picture.width() * picture.height()) <= isize::MAX,
        frame::fits_memory(width, height),
    ensures
        button.width == width,
        button.height == height,
        button.is_button_of(picture.gray(), picture.width(), picture.height(), picture.samples()),
        button.samples@.len() == 3 * (width * height),
        forall|x: int, y: int| #[trigger] button.has(x, y) <==> 0 <= x < button.width && 0 <= y < button.height,
        forall|r: int, x: int, y: int|
            #![trigger frame::outside_rounded_rect(x, y, button.width as int, button.height as int, r)]
            0 <= r <= 16 && 2 * r <= button.width && 2 * r <= button.height && (r == 16
                || button.width < 2 * r + 2 || button.height < 2 * r + 2) && 0 <= x < button.width
                && 0 <= y < button.height ==> {
                frame::outside_rounded_rect(x, y, button.width as int, button.height as int, r)
                    ==> {
                    &&& button.samples@[3 * (y * button.width + x)] == 0
                    &&& button.samples@[3 * (y * button.width + x) + 1] == 0
                    &&& button.samples@[3 * (y * button.width + x) + 2] == 0
                }
            },
        forall|x: int, y: int| #[trigger]
            button.has(x, y) && (button.width < picture.width() || button.height < picture.height()
                || x < (button.width - picture.width()) / 2 || (button.width - picture.width()) / 2 + picture.width() <= x
                || y < (button.height - picture.height()) / 2 || (button.height - picture.height()) / 2 + picture.height() <= y) ==> {
                &&& button.samples@[3 * (y * button.width + x)] == 0
                &&& button.samples@[3 * (y * button.width + x) + 1] == 0
                &&& button.samples@[3 * (y * button.width + x) + 2] == 0
            },
        forall|r: int, x: int, y: int|
            #![trigger frame::outside_rounded_rect(x, y, button.width as int, button.height as int, r)]
            0 <= r <= 16 && 2 * r <= button.width && 2 * r <= button.height && (r == 16
                || button.width < 2 * r + 2 || button.height < 2 * r + 2) && 0 <= x < button.width
                && 0 <= y < button.height ==> {
                let left = (button.width - picture.width()) / 2;
                let top = (button.height - picture.height()) / 2;
                !picture.gray() && !frame::outside_rounded_rect(x, y, button.width as int, button.height as int, r)
                    && picture.width() <= button.width && picture.height() <= button.height && left <= x < left + picture.width()
                    && top <= y < top + picture.height()
                    ==> {
                    &&& button.samples@[3 * (y * button.width + x)]
                        == picture.samples()[3 * ((y - top) * picture.width() + (x - left))]
                    &&& button.samples@[3 * (y * button.width + x) + 1]
                        == picture.samples()[3 * ((y - top) * picture.width() + (x - left)) + 1]
                    &&& button.samples@[3 * (y * button.width + x) + 2]
                        == picture.samples()[3 * ((y - top) * picture.width() + (x - left)) + 2]
                }
            },
        forall|r: int, x: int, y: int|
            #![trigger frame::outside_rounded_rect(x, y, button.width as int, button.height as int, r)]
            0 <= r <= 16 && 2 * r <= button.width && 2 * r <= button.height && (r == 16
                || button.width < 2 * r + 2 || button.height < 2 * r + 2) && 0 <= x < button.width
                && 0 <= y < button.height ==> {
                let left = (button.width - picture.width()) / 2;
                let top = (button.height - picture.height()) / 2;
                picture.gray() && !frame::outside_rounded_rect(x, y, button.width as int, button.height as int, r)
                    && picture.width() <= button.width && picture.height() <= button.height && left <= x < left + picture.width()
                    && top <= y < top + picture.height()
                    ==> {
                    &&& button.samples@[3 * (y * button.width + x)]
                        == picture.samples()[(y - top) * picture.width() + (x - left)]
                    &&& button.samples@[3 * (y * button.width + x) + 1]
                        == picture.samples()[(y - top) * picture.width() + (x - left)]
                    &&& button.samples@[3 * (y * button.width + x) + 2]
                        == picture.samples()[(y - top) * picture.width() + (x - left)]
                }
            },
{
    let ghost shown = picture;
    let inner = to_rgb8(picture);
    let mut canvas = blank_button_image(width, height);
    let x: u32 = if inner.width <= width {
        (width - inner.width) / 2
    } else {
        0
    };
    let y: u32 = if inner.height <= height {
        (height - inner.height) / 2
    } else {
        0
    };
    let ghost blank = canvas;
    let _ = canvas.copy_from(&inner, x, y);
    let ghost placed = canvas;
    apply_rounded_corners(&mut canvas, BUTTON_CORNER_RADIUS);
    proof {
        assert forall|px: int, py: int| #[trigger] canvas.has(px, py) implies canvas.pixel(px, py)
            == button_pixel(
            width,
            height,
            shown.gray(),
            inner.width,
            inner.height,
            shown.samples(),
            px,
            py,
        ) by {
            assert(placed.has(px, py));
            assert(blank.has(px, py));
            if inner.has(px - x, py - y) {
                lemma_content_pixel(shown, inner, px - x, py - y);
            }
        }
        buttons_show_their_picture(
            canvas,
            shown.gray(),
            shown.width(),
            shown.height(),
            shown.samples(),
        );
    }
    canvas
}

/// Scales a picture to fit a button of the given size, keeping its
/// proportions, places it in the middle and rounds the button's corners.
pub fn normalize_button_image(image: Picture, width: u32, height: u32) -> (button: RgbFrame)
    requires
        image.wf(),
        image.jpeg_sized(),
        scalable(image.width(), width, height),
    ensures
        button.width == width,
        button.height == height,
        button.is_normalized(image.gray(), image.width(), image.height(), image.samples()),
        image.width() == width && image.height() == height ==> button.is_button_of(
            image.gray(),
            width,
            height,
            image.samples(),
        ),
        width > 0 && height > 0 ==> ({
            let scaled = scaled_content(
                image.gray(),
                image.width(),
                image.height(),
                image.samples(),
                width,
                height,
            );
            &&& scaled.0 <= width
            &&& scaled.1 <= height
            &&& image.width() > 0 && image.height() > 0 ==> fills_bounds(
                image.width(),
                image.height(),
                width,
                height,
                scaled.0,
                scaled.1,
            )
        }),
        button.samples@.len() == 3 * (width * height),
        forall|x: int, y: int| #[trigger] button.has(x, y) <==> 0 <= x < button.width && 0 <= y < button.height,
        forall|r: int, x: int, y: int|
            #![trigger frame::outside_rounded_rect(x, y, button.width as int, button.height as int, r)]
            0 <= r <= 16 && 2 * r <= button.width && 2 * r <= button.height && (r == 16
                || button.width < 2 * r + 2 || button.height < 2 * r + 2) && 0 <= x < button.width
                && 0 <= y < button.height ==> {
                frame::outside_rounded_rect(x, y, button.width as int, button.height as int, r)
                    ==> {
                    &&& button.samples@[3 * (y * button.width + x)] == 0
                    &&& button.samples@[3 * (y * button.width + x) + 1] == 0
                    &&& button.samples@[3 * (y * button.width + x) + 2] == 0
                }
            },
        ({
            let scaled = scaled_content(
                image.gray(),
                image.width(),
                image.height(),
                image.samples(),
                button.width,
                button.height,
            );
            forall|x: int, y: int| #[trigger]
                button.has(x, y) && (button.width < scaled.0 || button.height < scaled.1
                    || x < (button.width - scaled.0) / 2 || (button.width - scaled.0) / 2 + scaled.0 <= x
                    || y < (button.height - scaled.1) / 2 || (button.height - scaled.1) / 2 + scaled.1 <= y) ==> {
                    &&& button.samples@[3 * (y * button.width + x)] == 0
                    &&& button.samples@[3 * (y * button.width + x) + 1] == 0
                    &&& button.samples@[3 * (y * button.width + x) + 2] == 0
                }
        }),
        ({
            let scaled = scaled_content(
                image.gray(),
                image.width(),
                image.height(),
                image.samples(),
                button.width,
                button.height,
            );
            forall|r: int, x: int, y: int|
                #![trigger frame::outside_rounded_rect(x, y, button.width as int, button.height as int, r)]
                0 <= r <= 16 && 2 * r <= button.width && 2 * r <= button.height && (r == 16
                    || button.width < 2 * r + 2 || button.height < 2 * r + 2) && 0 <= x < button.width
                    && 0 <= y < button.height ==> {
                    let left = (button.width - scaled.0) / 2;
                    let top = (button.height - scaled.1) / 2;
                    !image.gray() && !frame::outside_rounded_rect(x, y, button.width as int, button.height as int, r)
                        && scaled.0 <= button.width && scaled.1 <= button.height && left <= x < left + scaled.0
                        && top <= y < top + scaled.1
                        ==> {
                        &&& button.samples@[3 * (y * button.width + x)]
                            == scaled.2[3 * ((y - top) * scaled.0 + (x - left))]
                        &&& button.samples@[3 * (y * button.width + x) + 1]
                            == scaled.2[3 * ((y - top) * scaled.0 + (x - left)) + 1]
                        &&& button.samples@[3 * (y * button.width + x) + 2]
                            == scaled.2[3 * ((y - top) * scaled.0 + (x - left)) + 2]
                    }
                }
        }),
        ({
            let scaled = scaled_content(
                image.gray(),
                image.width(),
                image.height(),
                image.samples(),
                button.width,
                button.height,
            );
            forall|r: int, x: int, y: int|
                #![trigger frame::outside_rounded_rect(x, y, button.width as int, button.height as int, r)]
                0 <= r <= 16 && 2 * r <= button.width && 2 * r <= button.height && (r == 16
                    || button.width < 2 * r + 2 || button.height < 2 * r + 2) && 0 <= x < button.width
                    && 0 <= y < button.height ==> {
                    let left = (button.width - scaled.0) / 2;
                    let top = (button.height - scaled.1) / 2;
                    image.gray() && !frame::outside_rounded_rect(x, y, button.width as int, button.height as int, r)
                        && scaled.0 <= button.width && scaled.1 <= button.height && left <= x < left + scaled.0
                        && top <= y < top + scaled.1
                        ==> {
                        &&& button.samples@[3 * (y * button.width + x)]
                            == scaled.2[(y - top) * scaled.0 + (x - left)]
                        &&& button.samples@[3 * (y * button.width + x) + 1]
                            == scaled.2[(y - top) * scaled.0 + (x - left)]
                        &&& button.samples@[3 * (y * button.width + x) + 2]
                            == scaled.2[(y - top) * scaled.0 + (x - left)]
                    }
                }
        }),
{
    let ghost whole = image;
    let scaled = resize(image, width, height);
    proof {
        assert(scaled.width() * scaled.height() <= at_least_one(width) * at_least_one(height))
            by (nonlinear_arith)
            requires
                0 <= scaled.width() <= at_least_one(width),
                0 <= scaled.height() <= at_least_one(height),
        ;
        assert(width * height <= at_least_one(width) * at_least_one(height)) by (nonlinear_arith)
            requires
                0 <= width <= at_least_one(width),
                0 <= height <= at_least_one(height),
        ;
    }
    assert(3 * (scaled.width() * scaled.height()) <= isize::MAX);
    let button = place_on_button(scaled, width, height);
    proof {
        buttons_show_what_was_scaled_for_them(
            button,
            whole.gray(),
            whole.width(),
            whole.height(),
            whole.samples(),
            scaled_content(
                whole.gray(),
                whole.width(),
                whole.height(),
                whole.samples(),
                button.width,
                button.height,
            ),
        );
    }
    button
}

/// The JPEG file that a data URL holds; `None` for anything else.
pub open spec fn jpeg_body(subtype: Option<Seq<char>>, body: Option<Seq<u8>>) -> Option<Seq<u8>> {
    if subtype == Some("jpeg"@) {
        body
    } else {
        None
    }
}

/// Takes the body of a data URL whose parts were read, if its media subtype is
/// `jpeg`.
pub fn accept_jpeg(subtype: &String, body: Option<Vec<u8>>) -> (r: Result<Vec<u8>, DeviceError>)
    ensures
        match body {
            Some(bytes) => r == if subtype@ == "jpeg"@ {
                Ok::<Vec<u8>, DeviceError>(bytes)
            } else {
                Err::<Vec<u8>, DeviceError>(DeviceError::BadData)
            },
            None => r == Err::<Vec<u8>, DeviceError>(DeviceError::BadData),
        },
{
    match body {
        None => Err(DeviceError::BadData),
        Some(bytes) => if *subtype == "jpeg".to_owned() {
            Ok(bytes)
        } else {
            Err(DeviceError::BadData)
        },
    }
}

/// The size of a button in the given format.
pub open spec fn button_size(format: ImageFormat) -> (u32, u32) {
    (format.size.0 as u32, format.size.1 as u32)
}

/// Decoding any picture for a button of the given format stays within memory.
pub open spec fn decodable(format: ImageFormat) -> bool {
    scalable(JPEG_SIDE_LIMIT, button_size(format).0, button_size(format).1)
}

/// Pictures can be decoded for every button of no more than two thousand pixels
/// either way.
pub proof fn ordinary_buttons_can_be_decoded_for(format: ImageFormat)
    requires
        format.size.0 <= 2000,
        format.size.1 <= 2000,
    ensures
        decodable(format),
{
    let width = at_least_one(format.size.0 as u32);
    let height = at_least_one(format.size.1 as u32);
    assert(width * height <= 2000 * 2000) by (nonlinear_arith)
        requires
            0 <= width <= 2000,
            0 <= height <= 2000,
    ;
    assert(JPEG_SIDE_LIMIT * height <= 65535 * 2000) by (nonlinear_arith)
        requires
            0 <= JPEG_SIDE_LIMIT <= 65535,
            0 <= height <= 2000,
    ;
    assert(isize::MAX >= 0x7fff_ffff);
}

/// Whether any picture can be decoded for a button of the given format.
pub fn is_decodable(format: ImageFormat) -> (r: bool)
    ensures
        r == decodable(format),
        format.size.0 <= 2000 && format.size.1 <= 2000 ==> r,
{
    proof {
        if format.size.0 <= 2000 && format.size.1 <= 2000 {
            ordinary_buttons_can_be_decoded_for(format);
        }
    }
    let width: u32 = #[verifier::truncate]
    (format.size.0 as u32);
    let height: u32 = #[verifier::truncate]
    (format.size.1 as u32);
    let width: u128 = if width == 0 {
        1
    } else {
        width as u128
    };
    let height: u128 = if height == 0 {
        1
    } else {
        height as u128
    };
    let limit: u128 = isize::MAX as u128;
    assert(width * height <= 0x1_0000_0000 * 0x1_0000_0000) by (nonlinear_arith)
        requires
            width <= 0x1_0000_0000,
            height <= 0x1_0000_0000,
    ;
    let side: u128 = JPEG_SIDE_LIMIT as u128;
    assert(side * height <= 0x1_0000 * 0x1_0000_0000) by (nonlinear_arith)
        requires
            side <= 0x1_0000,
            height <= 0x1_0000_0000,
    ;
    16 * (side * height) <= limit && 3 * (width * height) <= limit
}

/// What decoding the JPEG file of a button comes to: an image error where the
/// decoder returns an error, bad data where it panics, and a button that shows
/// the picture everywhere else.
pub open spec fn is_decoded_file(
    format: ImageFormat,
    bytes: Seq<u8>,
    r: Result<RgbFrame, DeviceError>,
) -> bool {
    match jpeg_content(bytes) {
        None => r == Err::<RgbFrame, DeviceError>(DeviceError::BadData),
        Some(None) => r is Err && r->Err_0 is ImageError,
        Some(Some((gray, width, height, samples))) => {
            &&& r is Ok
            &&& (r->Ok_0.width, r->Ok_0.height) == button_size(format)
            &&& r->Ok_0.is_normalized(gray, width, height, samples)
        },
    }
}

/// What the text that the host sends for a button comes to. Where it rests on
/// the machine whether the decoder panics, it may be bad data as well.
pub open spec fn is_decoded_button(
    format: ImageFormat,
    text: Seq<char>,
    r: Result<RgbFrame, DeviceError>,
) -> bool {
    match jpeg_body(data_url_subtype(text), data_url_body(text)) {
        None => r == Err::<RgbFrame, DeviceError>(DeviceError::BadData),
        Some(bytes) => {
            ||| is_decoded_file(format, bytes, r)
            ||| rests_on_machine(bytes) && r == Err::<RgbFrame, DeviceError>(DeviceError::BadData)
        },
    }
}

/// What decoding comes to, step by step: bad data unless the text is a data URL
/// of subtype `jpeg` whose body can be decoded; and then what the decoder makes
/// of that very body, a picture on a button of the format's own size, an image
/// error, or bad data where it panics.
pub proof fn decoding_follows_the_text(
    format: ImageFormat,
    text: Seq<char>,
    r: Result<RgbFrame, DeviceError>,
)
    requires
        is_decoded_button(format, text, r),
    ensures
        data_url_subtype(text) != Some("jpeg"@) || data_url_body(text) is None ==> r == Err::<
            RgbFrame,
            DeviceError,
        >(DeviceError::BadData),
        data_url_subtype(text) == Some("jpeg"@) && data_url_body(text) is Some ==> {
            let bytes = data_url_body(text)->0;
            let loaded = jpeg_content(bytes);
            &&& loaded is None ==> r is Err && r->Err_0 is BadData
            &&& !rests_on_machine(bytes) && loaded is Some && loaded->0 is None ==> r is Err
                && r->Err_0 is ImageError
            &&& !rests_on_machine(bytes) && loaded is Some && loaded->0 is Some ==> r is Ok
            &&& r is Ok ==> {
                &&& loaded is Some
                &&& loaded->0 is Some
                &&& r->Ok_0.width == format.size.0 as u32
                &&& r->Ok_0.height == format.size.1 as u32
                &&& r->Ok_0.is_normalized(
                    (loaded->0->0).0,
                    (loaded->0->0).1,
                    (loaded->0->0).2,
                    (loaded->0->0).3,
                )
            }
            &&& r is Err ==> r->Err_0 is BadData || r->Err_0 is ImageError
        },
{
}

/// Judges what came of loading a file: a picture, an error of the decoder, or
/// nothing where it panicked.
pub fn accept_picture(loaded: Option<Result<Picture, image::ImageError>>) -> (r: Result<
    Picture,
    DeviceError,
>)
    ensures
        r == match loaded {
            None => Err::<Picture, DeviceError>(DeviceError::BadData),
            Some(Err(err)) => Err(DeviceError::ImageError(err)),
            Some(Ok(picture)) => Ok(picture),
        },
{
    match loaded {
        None => Err(DeviceError::BadData),
        Some(Err(err)) => Err(DeviceError::ImageError(err)),
        Some(Ok(picture)) => Ok(picture),
    }
}

/// Decodes what the host sends for a button: a data URL that holds a JPEG
/// file, to be scaled to the button's size. This blocks its thread.
pub fn decode_button_image(format: ImageFormat, image: &str) -> (r: Result<RgbFrame, DeviceError>)
    requires
        decodable(format),
    ensures
        is_decoded_button(format, image@, r),
{
    let bytes = match read_data_url(image) {
        Err(_) => return Err(DeviceError::BadData),
        Ok((subtype, body)) => {
            let body = match body {
                Ok(bytes) => Some(bytes),
                Err(_) => None,
            };
            match accept_jpeg(&subtype, body) {
                Ok(bytes) => bytes,
                Err(err) => return Err(err),
            }
        },
    };
    match accept_picture(load_jpeg(bytes.as_slice())) {
        Err(err) => Err(err),
        Ok(picture) => {
            let width: u32 = #[verifier::truncate]
            (format.size.0 as u32);
            let height: u32 = #[verifier::truncate]
            (format.size.1 as u32);
            proof {
                lemma_narrower_is_scalable(picture.width(), JPEG_SIDE_LIMIT, width, height);
            }
            Ok(normalize_button_image(picture, width, height))
        },
    }
}

proof fn lemma_narrower_is_scalable(width: u32, limit: u32, nwidth: u32, nheight: u32)
    requires
        width <= limit,
        scalable(limit, nwidth, nheight),
    ensures
        scalable(width, nwidth, nheight),
{
    assert(width * at_least_one(nheight) <= limit * at_least_one(nheight)) by (nonlinear_arith)
        requires
            0 <= width <= limit,
            0 <= at_least_one(nheight),
    ;
}

} // verus!
