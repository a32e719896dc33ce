use opendeck_ampgd6::cache::{
    converted_image_cache_key, image_mirror_code, image_mode_code, image_rotation_code,
    ConvertedImageCache, IMAGE_CACHE_LIMIT,
};
use opendeck_ampgd6::mappings::{ImageFormat, ImageMirroring, ImageMode, ImageRotation};

fn format(mode: ImageMode) -> ImageFormat {
    ImageFormat {
        mode,
        size: (100, 100),
        rotation: ImageRotation::Rot180,
        mirror: ImageMirroring::Unmirrored,
    }
}

#[test]
fn converted_image_cache_key_includes_format() {
    let jpeg = ImageFormat {
        mode: ImageMode::JPEG,
        size: (100, 100),
        rotation: ImageRotation::Rot180,
        mirror: ImageMirroring::Unmirrored,
    };
    let bmp = ImageFormat {
        mode: ImageMode::BMP,
        size: (100, 100),
        rotation: ImageRotation::Rot180,
        mirror: ImageMirroring::Unmirrored,
    };

    assert_ne!(
        converted_image_cache_key(7, jpeg),
        converted_image_cache_key(7, bmp)
    );
}

#[test]
fn formats_have_numbers() {
    assert_eq!(image_mode_code(format(ImageMode::NoImage)), 0);
    assert_eq!(image_mode_code(format(ImageMode::BMP)), 1);
    assert_eq!(image_mode_code(format(ImageMode::JPEG)), 2);
    assert_eq!(image_rotation_code(format(ImageMode::JPEG)), 2);
    assert_eq!(image_mirror_code(format(ImageMode::JPEG)), 0);
    let mirrored = ImageFormat {
        mirror: ImageMirroring::Both,
        rotation: ImageRotation::Rot270,
        ..format(ImageMode::JPEG)
    };
    assert_eq!(image_mirror_code(mirrored), 3);
    assert_eq!(image_rotation_code(mirrored), 3);
    let key = converted_image_cache_key(9, mirrored);
    assert_eq!(
        (
            key.image_hash,
            key.width,
            key.height,
            key.mode,
            key.rotation,
            key.mirror
        ),
        (9, 100, 100, 2, 3, 3)
    );
}

#[test]
fn same_picture_and_format_share_a_key() {
    assert_eq!(
        converted_image_cache_key(7, format(ImageMode::JPEG)),
        converted_image_cache_key(7, format(ImageMode::JPEG))
    );
    assert_ne!(
        converted_image_cache_key(7, format(ImageMode::JPEG)),
        converted_image_cache_key(8, format(ImageMode::JPEG))
    );
}

#[test]
fn kept_pictures_are_found_again() {
    let mut cache = ConvertedImageCache::new();
    let key = converted_image_cache_key(7, format(ImageMode::JPEG));
    let other = converted_image_cache_key(8, format(ImageMode::JPEG));
    assert!(cache.get(key).is_none());
    cache.insert(key, vec![1, 2, 3]);
    assert_eq!(cache.get(key), Some(vec![1, 2, 3]));
    assert!(cache.get(other).is_none());
    cache.insert(key, vec![4]);
    assert_eq!(cache.get(key), Some(vec![4]));
}

#[test]
fn full_cache_is_emptied_for_a_new_picture() {
    let mut cache = ConvertedImageCache::new();
    let key = |hash: u64| converted_image_cache_key(hash, format(ImageMode::JPEG));
    assert_eq!(IMAGE_CACHE_LIMIT, 64);
    for hash in 0..64u64 {
        cache.insert(key(hash), vec![hash as u8]);
    }
    // A picture that is kept already needs no room.
    cache.insert(key(5), vec![200]);
    assert_eq!(cache.get(key(0)), Some(vec![0]));
    assert_eq!(cache.get(key(5)), Some(vec![200]));
    assert_eq!(cache.get(key(63)), Some(vec![63]));

    cache.insert(key(64), vec![64]);
    assert_eq!(cache.get(key(64)), Some(vec![64]));
    for hash in 0..64u64 {
        assert!(cache.get(key(hash)).is_none());
    }
}
