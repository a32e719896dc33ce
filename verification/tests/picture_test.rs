use image::codecs::jpeg::JpegEncoder;
use image::ExtendedColorType;
use opendeck_ampgd6::batch::{empty_render_batch, hash_image_payload, BatchedRenderOp};
use opendeck_ampgd6::convert::{
    build_render_assets, convert_image_with_format_sync, decode_and_convert_button_image,
};
use opendeck_ampgd6::error::DeviceError;
use opendeck_ampgd6::frame::{
    apply_rounded_corners, blank_button_image, pixel_is_outside_rounded_rect, RgbFrame,
    BUTTON_CORNER_RADIUS,
};
use opendeck_ampgd6::mappings::{
    ImageFormat, ImageMirroring, ImageMode, ImageRotation, KEY_COUNT,
};
use opendeck_ampgd6::picture::{
    accept_jpeg, accept_picture, decode_button_image, is_decodable, normalize_button_image,
    place_on_button, LumaFrame, Picture,
};
use opendeck_ampgd6::render::{
    process_render_batch, DecodeOutcome, RenderAction, RenderEvent, RenderState,
};

fn base64(bytes: &[u8]) -> String {
    let digits = b"ABCDEFGHIJKLMNOPQRSTUVWXYZabcdefghijklmnopqrstuvwxyz0123456789+/";
    let mut text = String::new();
    for chunk in bytes.chunks(3) {
        let b = [
            chunk[0] as u32,
            *chunk.get(1).unwrap_or(&0) as u32,
            *chunk.get(2).unwrap_or(&0) as u32,
        ];
        let n = (b[0] << 16) | (b[1] << 8) | b[2];
        for i in 0..4 {
            if i <= chunk.len() {
                text.push(digits[((n >> (18 - 6 * i)) & 63) as usize] as char);
            } else {
                text.push('=');
            }
        }
    }
    text
}

fn jpeg(samples: &[u8], width: u32, height: u32, color: ExtendedColorType) -> Vec<u8> {
    let mut file = Vec::new();
    JpegEncoder::new_with_quality(&mut file, 100)
        .encode(samples, width, height, color)
        .unwrap();
    file
}

fn data_url(file: &[u8]) -> String {
    format!("data:image/jpeg;base64,{}", base64(file))
}

fn white(width: u32, height: u32) -> Picture {
    Picture::Rgb8(RgbFrame {
        width,
        height,
        samples: vec![255; (3 * width * height) as usize],
    })
}

fn button(mode: ImageMode, size: (usize, usize)) -> ImageFormat {
    ImageFormat {
        mode,
        size,
        rotation: ImageRotation::Rot0,
        mirror: ImageMirroring::Unmirrored,
    }
}

#[test]
fn normalized_image_keeps_requested_dimensions() {
    let source = white(100, 100);

    let normalized = normalize_button_image(source, 100, 100);

    assert_eq!((normalized.width, normalized.height), (100, 100));
}

#[test]
fn normalized_image_masks_all_four_corners_to_black() {
    let source = white(100, 100);

    let normalized = normalize_button_image(source, 100, 100);

    assert_eq!(normalized.get_pixel(0, 0), (0, 0, 0));
    assert_eq!(normalized.get_pixel(99, 0), (0, 0, 0));
    assert_eq!(normalized.get_pixel(0, 99), (0, 0, 0));
    assert_eq!(normalized.get_pixel(99, 99), (0, 0, 0));
}

#[test]
fn normalized_image_preserves_center_content() {
    let source = white(100, 100);

    let normalized = normalize_button_image(source, 100, 100);

    assert_eq!(normalized.get_pixel(50, 50), (255, 255, 255));
    assert_eq!(
        normalized.get_pixel(BUTTON_CORNER_RADIUS, BUTTON_CORNER_RADIUS),
        (255, 255, 255)
    );
}

#[test]
fn build_render_assets_preconverts_black_frames() {
    let formats = vec![
        ImageFormat {
            mode: ImageMode::JPEG,
            size: (100, 100),
            rotation: ImageRotation::Rot180,
            mirror: ImageMirroring::Unmirrored,
        };
        KEY_COUNT
    ];
    let black_frames = build_render_assets(&formats).unwrap();

    assert_eq!(formats.len(), KEY_COUNT);
    assert_eq!(black_frames.len(), KEY_COUNT);
    assert!(black_frames.iter().all(|payload| !payload.is_empty()));
    let shown = image::load_from_memory(&black_frames[0]).unwrap().to_rgb8();
    assert_eq!(shown.dimensions(), (100, 100));
    assert!(shown.as_raw().iter().all(|sample| *sample == 0));
}

#[test]
fn black_frames_that_cannot_be_encoded_are_image_errors() {
    let formats = vec![button(ImageMode::JPEG, (0, 100))];
    assert!(matches!(
        build_render_assets(&formats),
        Err(DeviceError::ImageError(_))
    ));
    assert!(build_render_assets(&Vec::new()).unwrap().is_empty());
}

#[test]
fn large_pictures_are_scaled_down() {
    let normalized = normalize_button_image(white(300, 300), 100, 100);
    assert_eq!((normalized.width, normalized.height), (100, 100));
    assert_eq!(normalized.get_pixel(50, 50), (255, 255, 255));
    assert_eq!(normalized.get_pixel(0, 0), (0, 0, 0));
}

#[test]
fn small_pictures_are_scaled_up() {
    let normalized = normalize_button_image(white(10, 10), 100, 100);
    assert_eq!(normalized.get_pixel(2, 50), (255, 255, 255));
    assert_eq!(normalized.get_pixel(97, 50), (255, 255, 255));
}

#[test]
fn wide_pictures_stand_in_the_middle() {
    let normalized = normalize_button_image(white(200, 100), 100, 100);
    assert_eq!(normalized.get_pixel(50, 24), (0, 0, 0));
    assert_eq!(normalized.get_pixel(50, 25), (255, 255, 255));
    assert_eq!(normalized.get_pixel(50, 74), (255, 255, 255));
    assert_eq!(normalized.get_pixel(50, 75), (0, 0, 0));
    assert_eq!(normalized.get_pixel(0, 50), (255, 255, 255));
    assert_eq!(normalized.get_pixel(99, 50), (255, 255, 255));
}

#[test]
fn every_shade_of_grey_becomes_a_colour() {
    let samples: Vec<u8> = (0..33u32 * 256).map(|i| (i % 256) as u8).collect();
    let picture = Picture::Luma8(LumaFrame {
        width: 256,
        height: 33,
        samples,
    });
    let shown = place_on_button(picture, 256, 33);
    for x in 0..256u32 {
        let shade = x as u8;
        assert_eq!(shown.get_pixel(x, 16), (shade, shade, shade));
    }
}

#[test]
fn pictures_larger_than_the_button_are_not_placed() {
    let shown = place_on_button(white(50, 50), 40, 60);
    assert_eq!(shown, blank_button_image(40, 60));
}

#[test]
fn corners_are_cut_along_a_circle() {
    // Around the corner of a button of a hundred pixels with radius sixteen.
    assert!(pixel_is_outside_rounded_rect(0, 0, 100, 100, 16));
    assert!(!pixel_is_outside_rounded_rect(4, 4, 100, 100, 16));
    assert!(pixel_is_outside_rounded_rect(3, 3, 100, 100, 16));
    assert!(!pixel_is_outside_rounded_rect(0, 15, 100, 100, 16));
    assert!(!pixel_is_outside_rounded_rect(0, 50, 100, 100, 16));
    assert!(pixel_is_outside_rounded_rect(99, 0, 100, 100, 16));
    assert!(pixel_is_outside_rounded_rect(96, 3, 100, 100, 16));
    assert!(!pixel_is_outside_rounded_rect(95, 4, 100, 100, 16));
}

#[test]
fn rounding_is_the_same_from_all_sides() {
    for y in 0..60u32 {
        for x in 0..40u32 {
            let cut = pixel_is_outside_rounded_rect(x, y, 40, 60, 16);
            assert_eq!(cut, pixel_is_outside_rounded_rect(39 - x, y, 40, 60, 16));
            assert_eq!(cut, pixel_is_outside_rounded_rect(x, 59 - y, 40, 60, 16));
        }
    }
}

#[test]
fn rounding_again_changes_nothing() {
    let mut once = RgbFrame {
        width: 40,
        height: 60,
        samples: vec![200; 3 * 40 * 60],
    };
    apply_rounded_corners(&mut once, 16);
    assert_eq!(once.get_pixel(0, 0), (0, 0, 0));
    assert_eq!(once.get_pixel(20, 30), (200, 200, 200));
    let mut twice = RgbFrame {
        width: 40,
        height: 60,
        samples: once.samples.clone(),
    };
    apply_rounded_corners(&mut twice, 16);
    assert_eq!(once, twice);
}

#[test]
fn tiny_buttons_have_no_corners() {
    let mut dot = RgbFrame {
        width: 1,
        height: 1,
        samples: vec![200; 3],
    };
    apply_rounded_corners(&mut dot, 16);
    assert_eq!(dot.get_pixel(0, 0), (200, 200, 200));
}

#[test]
fn pixels_are_written_and_read_back() {
    let mut frame = blank_button_image(4, 3);
    assert_eq!(frame.samples, vec![0; 36]);
    frame.put_pixel(2, 1, (7, 8, 9));
    assert_eq!(frame.get_pixel(2, 1), (7, 8, 9));
    assert_eq!(frame.samples[3 * (4 + 2)..3 * (4 + 2) + 3], [7, 8, 9]);
    assert_eq!(frame.get_pixel(1, 1), (0, 0, 0));
}

#[test]
fn frames_are_copied_only_where_there_is_room() {
    let patch = RgbFrame {
        width: 2,
        height: 1,
        samples: vec![1, 2, 3, 4, 5, 6],
    };
    let mut frame = blank_button_image(4, 3);
    assert!(!frame.copy_from(&patch, 3, 0));
    assert_eq!(frame.samples, vec![0; 36]);
    assert!(frame.copy_from(&patch, 2, 2));
    assert_eq!(frame.get_pixel(2, 2), (1, 2, 3));
    assert_eq!(frame.get_pixel(3, 2), (4, 5, 6));
    assert_eq!(frame.get_pixel(1, 2), (0, 0, 0));
}

#[test]
fn colour_pictures_are_decoded_from_data_urls() {
    let file = jpeg(&[255; 3 * 64 * 64], 64, 64, ExtendedColorType::Rgb8);
    let shown = decode_button_image(button(ImageMode::JPEG, (64, 64)), &data_url(&file)).unwrap();
    assert_eq!((shown.width, shown.height), (64, 64));
    assert_eq!(shown.get_pixel(32, 32), (255, 255, 255));
    assert_eq!(shown.get_pixel(0, 0), (0, 0, 0));
}

#[test]
fn grey_pictures_are_decoded_from_data_urls() {
    let file = jpeg(&[128; 64 * 64], 64, 64, ExtendedColorType::L8);
    let shown = decode_button_image(button(ImageMode::JPEG, (64, 64)), &data_url(&file)).unwrap();
    assert_eq!(shown.get_pixel(32, 32), (128, 128, 128));
}

#[test]
fn decoded_pictures_are_the_files_pictures() {
    let samples: Vec<u8> = (0..3 * 64 * 64u32).map(|i| (i / 48 % 256) as u8).collect();
    let file = jpeg(&samples, 64, 64, ExtendedColorType::Rgb8);
    let shown = decode_button_image(button(ImageMode::JPEG, (64, 64)), &data_url(&file)).unwrap();
    let wanted = image::load_from_memory(&file).unwrap().to_rgb8();
    for x in 16..48u32 {
        let pixel = wanted.get_pixel(x, 32);
        assert_eq!(shown.get_pixel(x, 32), (pixel[0], pixel[1], pixel[2]));
    }
}

#[test]
fn text_that_is_no_data_url_is_bad_data() {
    let format = button(ImageMode::JPEG, (64, 64));
    assert!(matches!(
        decode_button_image(format, "http://example.org/a.jpeg"),
        Err(DeviceError::BadData)
    ));
    assert!(matches!(
        decode_button_image(format, "data:image/jpeg"),
        Err(DeviceError::BadData)
    ));
}

#[test]
fn broken_base64_is_bad_data() {
    let format = button(ImageMode::JPEG, (64, 64));
    assert!(matches!(
        decode_button_image(format, "data:image/jpeg;base64,?"),
        Err(DeviceError::BadData)
    ));
}

#[test]
fn other_media_types_are_bad_data() {
    let file = jpeg(&[255; 3 * 64 * 64], 64, 64, ExtendedColorType::Rgb8);
    let text = format!("data:image/png;base64,{}", base64(&file));
    assert!(matches!(
        decode_button_image(button(ImageMode::JPEG, (64, 64)), &text),
        Err(DeviceError::BadData)
    ));
}

#[test]
fn broken_jpeg_files_are_image_errors() {
    let format = button(ImageMode::JPEG, (64, 64));
    assert!(matches!(
        decode_button_image(format, "data:image/jpeg,abc"),
        Err(DeviceError::ImageError(_))
    ));
    assert!(matches!(
        decode_and_convert_button_image(format, "data:image/jpeg,abc"),
        Err(DeviceError::ImageError(_))
    ));
}

#[test]
fn only_jpeg_bodies_are_taken() {
    assert_eq!(
        accept_jpeg(&"jpeg".to_string(), Some(vec![1, 2])).unwrap(),
        vec![1, 2]
    );
    assert!(matches!(
        accept_jpeg(&"png".to_string(), Some(vec![1, 2])),
        Err(DeviceError::BadData)
    ));
    assert!(matches!(
        accept_jpeg(&"jpeg".to_string(), None),
        Err(DeviceError::BadData)
    ));
}

#[test]
fn pictures_are_converted_for_the_device() {
    let file = jpeg(&[255; 3 * 200 * 200], 200, 200, ExtendedColorType::Rgb8);
    let format = button(ImageMode::JPEG, (100, 100));
    let data = decode_and_convert_button_image(format, &data_url(&file)).unwrap();
    assert_eq!(data[..2], [0xff, 0xd8]);
    let shown = image::load_from_memory(&data).unwrap().to_rgb8();
    assert_eq!(shown.dimensions(), (100, 100));
    assert!(shown.get_pixel(50, 50)[0] > 250);
    assert!(shown.get_pixel(0, 0)[0] < 30);
}

#[test]
fn bitmaps_are_written_from_the_last_row_up() {
    let frame = || RgbFrame {
        width: 2,
        height: 2,
        samples: vec![1, 2, 3, 4, 5, 6, 7, 8, 9, 10, 11, 12],
    };
    let format = button(ImageMode::BMP, (2, 2));
    let data = convert_image_with_format_sync(format, frame()).unwrap();
    assert_eq!(data.len(), 54 + 16);
    assert_eq!(data[..2], *b"BM");
    assert_eq!(
        data[54..],
        [9, 8, 7, 12, 11, 10, 0, 0, 3, 2, 1, 6, 5, 4, 0, 0]
    );

    let turned = ImageFormat {
        rotation: ImageRotation::Rot180,
        ..format
    };
    let data = convert_image_with_format_sync(turned, frame()).unwrap();
    assert_eq!(
        data[54..],
        [6, 5, 4, 3, 2, 1, 0, 0, 12, 11, 10, 9, 8, 7, 0, 0]
    );

    let quarter = ImageFormat {
        rotation: ImageRotation::Rot90,
        ..format
    };
    let data = convert_image_with_format_sync(quarter, frame()).unwrap();
    assert_eq!(
        data[54..],
        [12, 11, 10, 6, 5, 4, 0, 0, 9, 8, 7, 3, 2, 1, 0, 0]
    );

    let mirrored = ImageFormat {
        mirror: ImageMirroring::X,
        ..format
    };
    let data = convert_image_with_format_sync(mirrored, frame()).unwrap();
    assert_eq!(
        data[54..],
        [12, 11, 10, 9, 8, 7, 0, 0, 6, 5, 4, 3, 2, 1, 0, 0]
    );
}

#[test]
fn buttons_without_pictures_get_no_bytes() {
    let format = button(ImageMode::NoImage, (2, 2));
    let data = convert_image_with_format_sync(format, blank_button_image(2, 2)).unwrap();
    assert!(data.is_empty());
}

#[test]
fn empty_jpeg_buttons_are_image_errors() {
    let format = button(ImageMode::JPEG, (0, 0));
    assert!(matches!(
        convert_image_with_format_sync(format, blank_button_image(0, 0)),
        Err(DeviceError::ImageError(_))
    ));
}

#[test]
fn ordinary_buttons_can_be_decoded_for() {
    assert!(is_decodable(button(ImageMode::JPEG, (100, 100))));
    assert!(is_decodable(button(ImageMode::JPEG, (0, 0))));
    assert!(!is_decodable(button(
        ImageMode::JPEG,
        (0xffff_ffff, 0xffff_ffff)
    )));
}

#[test]
fn frames_of_another_size_are_scaled_to_the_button() {
    let frame = RgbFrame {
        width: 200,
        height: 50,
        samples: vec![255; 3 * 200 * 50],
    };
    let data = convert_image_with_format_sync(button(ImageMode::BMP, (4, 2)), frame).unwrap();
    assert_eq!(data.len(), 54 + 2 * 12);
    assert!(data[54..].iter().all(|sample| *sample == 255));
}

#[test]
fn drawn_bytes_are_those_of_the_payload() {
    let file = jpeg(&[200; 3 * 64 * 64], 64, 64, ExtendedColorType::Rgb8);
    let payload = data_url(&file);
    let image_hash = hash_image_payload(&payload);
    let formats = vec![button(ImageMode::JPEG, (100, 100)); KEY_COUNT];
    let wanted = decode_and_convert_button_image(formats[6], &payload).unwrap();

    // Once decoded, and once from what is kept.
    let mut state = RenderState::new();
    for index in [6, 7] {
        let mut batch = empty_render_batch();
        batch[index] = Some(BatchedRenderOp::Image {
            image_hash,
            payload: payload.clone(),
        });
        let (mut pass, mut action) = process_render_batch(&state, &formats, false, batch);
        if let RenderAction::Decode { jobs } = action {
            assert_eq!(index, 6);
            let outcomes = jobs
                .into_iter()
                .map(|job| DecodeOutcome {
                    index: job.index,
                    image_hash: job.image_hash,
                    result: decode_and_convert_button_image(job.format, &job.payload),
                })
                .collect();
            (pass, action) = pass.advance(&mut state, &formats, RenderEvent::Decoded { outcomes });
        }
        match action {
            RenderAction::Draw {
                index: at,
                image_data,
            } => {
                assert_eq!(at, index);
                assert_eq!(image_data, wanted);
            }
            other => panic!("{other:?}"),
        }
        let (_, action) = pass.advance(&mut state, &formats, RenderEvent::Done);
        assert!(matches!(action, RenderAction::Flush));
        assert_eq!(state.last_image_hashes[index], Some(image_hash));
    }
}

/// The head of a JPEG file: segments, and a frame header for eight by eight
/// pixels with components that have the given sampling factors.
fn head(before: &[u8], marker: u8, factors: &[u8], after: &[u8]) -> Vec<u8> {
    let mut file = vec![0xff, 0xd8];
    file.extend_from_slice(before);
    let length = 8 + 3 * factors.len() as u8;
    let count = factors.len() as u8;
    file.extend_from_slice(&[0xff, marker, 0, length, 8, 0, 8, 0, 8, count]);
    for (i, factor) in factors.iter().enumerate() {
        file.extend_from_slice(&[i as u8 + 1, *factor, 0]);
    }
    file.extend_from_slice(after);
    file
}

/// The segment in which Adobe's programs say how colours are made up.
fn adobe(transform: u8) -> Vec<u8> {
    let mut segment = vec![0xff, 0xee, 0, 14];
    segment.extend_from_slice(b"Adobe");
    segment.extend_from_slice(&[0, 100, 0, 0, 0, 0, transform]);
    segment
}

/// Tables for files whose blocks are all empty: a zero bit each.
fn tables() -> Vec<u8> {
    let mut tables = vec![0xff, 0xdb, 0, 67, 0];
    tables.extend_from_slice(&[1; 64]);
    for class in [0x00, 0x10] {
        tables.extend_from_slice(&[0xff, 0xc4, 0, 20, class, 1]);
        tables.extend_from_slice(&[0; 16]);
    }
    tables
}

/// A scan of the first component alone.
const SCAN_OF_ONE: [u8; 10] = [0xff, 0xda, 0, 8, 1, 1, 0, 0, 0, 0];

/// A scan of three components.
const SCAN_OF_THREE: [u8; 14] = [0xff, 0xda, 0, 12, 3, 1, 0, 2, 0, 3, 0, 0, 0, 0];

fn with_data(scan: &[u8], data: &[u8]) -> Vec<u8> {
    [scan, data, &[0xff, 0xd9]].concat()
}

#[test]
fn finer_later_components_in_one_scan_are_decoded() {
    let mut file = jpeg(&vec![200; 3 * 32 * 32], 32, 32, ExtendedColorType::Rgb8);
    let header = file
        .windows(2)
        .position(|pair| pair[0] == 0xff && pair[1] == 0xc0)
        .unwrap();
    assert_eq!(file[header + 9], 3);
    file[header + 11] = 0x11;
    file[header + 11 + 3] = 0x21;
    let format = button(ImageMode::JPEG, (100, 90));
    let frame = decode_button_image(format, &data_url(&file)).unwrap();
    assert_eq!((frame.width, frame.height), (100, 90));
    let data = decode_and_convert_button_image(format, &data_url(&file)).unwrap();
    assert!(!data.is_empty());
}

#[test]
fn empty_blocks_are_grey() {
    let format = button(ImageMode::JPEG, (100, 100));
    let scan = with_data(&SCAN_OF_ONE, &[0x7f]);
    let grey = head(&tables(), 0xc2, &[0x11], &scan);
    let frame = decode_button_image(format, &data_url(&grey)).unwrap();
    assert_eq!(frame.get_pixel(50, 50), (128, 128, 128));

    let scan = with_data(&SCAN_OF_THREE, &[0x03]);
    let before = [tables(), adobe(1)].concat();
    let coloured = head(&before, 0xc2, &[0x22, 0x11, 0x11], &scan);
    let frame = decode_button_image(format, &data_url(&coloured)).unwrap();
    assert_eq!(frame.get_pixel(50, 50), (128, 128, 128));
}

#[test]
fn what_stands_behind_a_picture_makes_no_difference() {
    let format = button(ImageMode::JPEG, (100, 100));
    let scan = with_data(&SCAN_OF_ONE, &[0x7f]);
    let file = head(&tables(), 0xc2, &[0x11], &[scan, adobe(2)].concat());
    let frame = decode_button_image(format, &data_url(&file)).unwrap();
    assert_eq!(frame.get_pixel(50, 50), (128, 128, 128));

    let comment = [0xff, 0xfe, 0, 4, 0xff, 0xee];
    let scan = with_data(&SCAN_OF_ONE, &[0x7f]);
    let file = head(&tables(), 0xc2, &[0x11], &[&comment[..], &scan].concat());
    let frame = decode_button_image(format, &data_url(&file)).unwrap();
    assert_eq!(frame.get_pixel(50, 50), (128, 128, 128));
}

#[test]
fn files_that_the_decoder_panics_on_are_bad_data() {
    let format = button(ImageMode::JPEG, (100, 100));
    let scan = with_data(&SCAN_OF_THREE, &[0x03]);
    let finer = head(&tables(), 0xc2, &[0x11, 0x22, 0x11], &scan);
    let scan = with_data(&SCAN_OF_ONE, &[0x7f]);
    let misnamed = head(&[tables(), adobe(2)].concat(), 0xc2, &[0x11, 0x11], &scan);
    for file in [finer, misnamed] {
        let result = decode_button_image(format, &data_url(&file));
        assert!(matches!(result, Err(DeviceError::BadData)));
        let result = decode_and_convert_button_image(format, &data_url(&file));
        assert!(matches!(result, Err(DeviceError::BadData)));
    }
}

#[test]
fn loaded_pictures_are_judged() {
    assert!(matches!(accept_picture(None), Err(DeviceError::BadData)));
    assert!(matches!(accept_picture(Some(Ok(white(2, 2)))), Ok(Picture::Rgb8(_))));
    let error = image::load_from_memory_with_format(&[0], image::ImageFormat::Jpeg).unwrap_err();
    assert!(matches!(
        accept_picture(Some(Err(error))),
        Err(DeviceError::ImageError(_))
    ));
}
