//! Converted pictures that are kept for the next time.

use vstd::prelude::*;

use crate::mappings::{ImageFormat, ImageMirroring, ImageMode, ImageRotation};

verus! {

/// How many converted pictures are kept at most.
pub const IMAGE_CACHE_LIMIT: usize = 64;

/// What a converted picture depends on: the picture and the whole format.
#[derive(Clone, Copy, Debug, PartialEq, Eq, Hash, Structural)]
pub struct ConvertedImageCacheKey {
    pub image_hash: u64,
    pub width: usize,
    pub height: usize,
    pub mode: u8,
    pub rotation: u8,
    pub mirror: u8,
}

pub open spec fn mode_code(mode: ImageMode) -> u8 {
    match mode {
        ImageMode::NoImage => 0,
        ImageMode::BMP => 1,
        ImageMode::JPEG => 2,
    }
}

pub open spec fn rotation_code(rotation: ImageRotation) -> u8 {
    match rotation {
        ImageRotation::Rot0 => 0,
        ImageRotation::Rot90 => 1,
        ImageRotation::Rot180 => 2,
        ImageRotation::Rot270 => 3,
    }
}

pub open spec fn mirror_code(mirror: ImageMirroring) -> u8 {
    match mirror {
        ImageMirroring::Unmirrored => 0,
        ImageMirroring::X => 1,
        ImageMirroring::Y => 2,
        ImageMirroring::Both => 3,
    }
}

/// A number for the encoding.
pub fn image_mode_code(format: ImageFormat) -> (code: u8)
    ensures
        code == mode_code(format.mode),
        code == match format.mode {
            ImageMode::NoImage => 0u8,
            ImageMode::BMP => 1u8,
            ImageMode::JPEG => 2u8,
        },
{
    match format.mode {
        ImageMode::NoImage => 0,
        ImageMode::BMP => 1,
        ImageMode::JPEG => 2,
    }
}

/// A number for the rotation, in quarter turns.
pub fn image_rotation_code(format: ImageFormat) -> (code: u8)
    ensures
        code == rotation_code(format.rotation),
        code == match format.rotation {
            ImageRotation::Rot0 => 0u8,
            ImageRotation::Rot90 => 1u8,
            ImageRotation::Rot180 => 2u8,
            ImageRotation::Rot270 => 3u8,
        },
{
    match format.rotation {
        ImageRotation::Rot0 => 0,
        ImageRotation::Rot90 => 1,
        ImageRotation::Rot180 => 2,
        ImageRotation::Rot270 => 3,
    }
}

/// A number for the mirroring.
pub fn image_mirror_code(format: ImageFormat) -> (code: u8)
    ensures
        code == mirror_code(format.mirror),
        code == match format.mirror {
            ImageMirroring::Unmirrored => 0u8,
            ImageMirroring::X => 1u8,
            ImageMirroring::Y => 2u8,
            ImageMirroring::Both => 3u8,
        },
{
    match format.mirror {
        ImageMirroring::Unmirrored => 0,
        ImageMirroring::X => 1,
        ImageMirroring::Y => 2,
        ImageMirroring::Both => 3,
    }
}

pub open spec fn cache_key(image_hash: u64, format: ImageFormat) -> ConvertedImageCacheKey {
    ConvertedImageCacheKey {
        image_hash,
        width: format.size.0,
        height: format.size.1,
        mode: mode_code(format.mode),
        rotation: rotation_code(format.rotation),
        mirror: mirror_code(format.mirror),
    }
}

/// The key under which a picture that was converted to a format is kept.
pub fn converted_image_cache_key(image_hash: u64, format: ImageFormat) -> (key:
    ConvertedImageCacheKey)
    ensures
        key == cache_key(image_hash, format),
        key.image_hash == image_hash,
        key.width == format.size.0,
        key.height == format.size.1,
        key.mode == mode_code(format.mode),
        key.rotation == rotation_code(format.rotation),
        key.mirror == mirror_code(format.mirror),
{
    ConvertedImageCacheKey {
        image_hash,
        width: format.size.0,
        height: format.size.1,
        mode: image_mode_code(format),
        rotation: image_rotation_code(format),
        mirror: image_mirror_code(format),
    }
}

/// Two keys are the same only for the same picture in the same format.
pub proof fn cache_keys_tell_formats_apart(
    hash: u64,
    format: ImageFormat,
    other_hash: u64,
    other_format: ImageFormat,
)
    ensures
        cache_key(hash, format) == cache_key(other_hash, other_format) <==> hash == other_hash
            && format == other_format,
{
}

/// A converted picture and its key.
pub struct CacheEntry {
    pub key: ConvertedImageCacheKey,
    pub data: Vec<u8>,
}

/// Converted pictures by key.
pub struct ConvertedImageCache {
    entries: Vec<CacheEntry>,
}

impl ConvertedImageCache {
    /// No key occurs twice, and there are no more pictures than the limit.
    pub closed spec fn wf(self) -> bool {
        &&& self.entries@.len() <= IMAGE_CACHE_LIMIT
        &&& forall|i: int, j: int|
            0 <= i < j < self.entries@.len() ==> (#[trigger] self.entries@[i]).key != (
            #[trigger] self.entries@[j]).key
    }

    closed spec fn holds_at(self, i: int, key: ConvertedImageCacheKey) -> bool {
        0 <= i < self.entries@.len() && self.entries@[i].key == key
    }

    /// The kept pictures.
    pub closed spec fn view(&self) -> Map<ConvertedImageCacheKey, Seq<u8>> {
        Map::new(
            |key: ConvertedImageCacheKey| exists|i: int| self.holds_at(i, key),
            |key: ConvertedImageCacheKey|
                self.entries@[choose|i: int| self.holds_at(i, key)].data@,
        )
    }

    proof fn lemma_at(self, i: int, key: ConvertedImageCacheKey)
        requires
            self.wf(),
            self.holds_at(i, key),
        ensures
            self@.dom().contains(key),
            self@[key] == self.entries@[i].data@,
    {
        let chosen = choose|i: int| self.holds_at(i, key);
        assert(self.holds_at(chosen, key));
        assert(chosen == i);
    }

    /// A cache that holds nothing.
    pub fn new() -> (cache: ConvertedImageCache)
        ensures
            cache.wf(),
            cache@ == Map::<ConvertedImageCacheKey, Seq<u8>>::empty(),
    {
        let cache = ConvertedImageCache { entries: Vec::new() };
        assert(cache@ =~= Map::<ConvertedImageCacheKey, Seq<u8>>::empty());
        cache
    }

    fn position(&self, key: ConvertedImageCacheKey) -> (at: Option<usize>)
        requires
            self.wf(),
        ensures
            match at {
                Some(i) => self.holds_at(i as int, key),
                None => !self@.dom().contains(key),
            },
    {
        let mut i: usize = 0;
        while i < self.entries.len()
            invariant
                self.wf(),
                i <= self.entries@.len(),
                forall|j: int| 0 <= j < i ==> !self.holds_at(j, key),
            decreases self.entries@.len() - i,
        {
            if self.entries[i].key == key {
                return Some(i);
            }
            i += 1;
        }
        None
    }

    /// The picture that is kept under a key.
    pub fn get(&self, key: ConvertedImageCacheKey) -> (data: Option<Vec<u8>>)
        requires
            self.wf(),
        ensures
            match data {
                Some(data) => self@.dom().contains(key) && data@ == self@[key],
                None => !self@.dom().contains(key),
            },
    {
        match self.position(key) {
            Some(i) => {
                proof {
                    self.lemma_at(i as int, key);
                }
                let data = self.entries[i].data.clone();
                assert(data@ =~= self.entries@[i as int].data@);
                Some(data)
            },
            None => None,
        }
    }

    /// The kept pictures after one more was added: when there is no room left
    /// for a new key, everything is dropped first.
    pub open spec fn after_insert(
        before: Map<ConvertedImageCacheKey, Seq<u8>>,
        key: ConvertedImageCacheKey,
        data: Seq<u8>,
    ) -> Map<ConvertedImageCacheKey, Seq<u8>> {
        if before.dom().len() >= IMAGE_CACHE_LIMIT && !before.dom().contains(key) {
            Map::empty().insert(key, data)
        } else {
            before.insert(key, data)
        }
    }

    proof fn lemma_len(self)
        requires
            self.wf(),
        ensures
            self@.dom().finite(),
            self@.dom().len() == self.entries@.len(),
    {
        let keys = self.entries@.map_values(|entry: CacheEntry| entry.key);
        assert(keys.no_duplicates()) by {
            assert forall|i: int, j: int|
                0 <= i < keys.len() && 0 <= j < keys.len() && i != j implies keys[i] != keys[j] by {
                if i < j {
                    assert(self.entries@[i].key != self.entries@[j].key);
                } else {
                    assert(self.entries@[j].key != self.entries@[i].key);
                }
            }
        }
        assert(keys.to_set() =~= self@.dom()) by {
            assert forall|key: ConvertedImageCacheKey| keys.to_set().contains(key)
                == self@.dom().contains(key) by {
                if keys.to_set().contains(key) {
                    let i = choose|i: int| 0 <= i < keys.len() && keys[i] == key;
                    assert(self.holds_at(i, key));
                }
                if self@.dom().contains(key) {
                    let i = choose|i: int| self.holds_at(i, key);
                    assert(keys[i] == key);
                }
            }
        }
        keys.unique_seq_to_set();
    }

    /// Keeps a picture under a key, in place of the one that was kept under it.
    pub fn insert(&mut self, key: ConvertedImageCacheKey, data: Vec<u8>)
        requires
            old(self).wf(),
        ensures
            final(self).wf(),
            final(self)@ == Self::after_insert(old(self)@, key, data@),
            final(self)@.dom().contains(key),
            final(self)@[key] == data@,
            old(self)@.dom().contains(key) || old(self)@.dom().len() < 64 ==> forall|
                other: ConvertedImageCacheKey,
            |
                #![trigger final(self)@.dom().contains(other)]
                other != key ==> {
                    &&& final(self)@.dom().contains(other) <==> old(self)@.dom().contains(other)
                    &&& old(self)@.dom().contains(other) ==> final(self)@[other] == old(
                        self,
                    )@[other]
                },
            !old(self)@.dom().contains(key) && old(self)@.dom().len() >= 64 ==> forall|
                other: ConvertedImageCacheKey,
            | #[trigger]
                final(self)@.dom().contains(other) ==> other == key,
    {
        proof {
            self.lemma_len();
        }
        let ghost before = *self;
        match self.position(key) {
            Some(i) => {
                let ghost kept = data@;
                self.entries[i].data = data;
                proof {
                    before.lemma_at(i as int, key);
                    assert(self@ =~= before@.insert(key, kept)) by {
                        self.lemma_replaced(before, i as int, key, kept);
                    }
                }
            },
            None => {
                if self.entries.len() >= IMAGE_CACHE_LIMIT {
                    self.entries.clear();
                }
                let ghost room = *self;
                let ghost kept = data@;
                self.entries.push(CacheEntry { key, data });
                proof {
                    self.lemma_pushed(room, key, kept);
                    if before.entries@.len() >= IMAGE_CACHE_LIMIT {
                        assert(room@ =~= Map::<ConvertedImageCacheKey, Seq<u8>>::empty());
                    }
                }
            },
        }
    }

    proof fn lemma_replaced(
        self,
        before: ConvertedImageCache,
        at: int,
        key: ConvertedImageCacheKey,
        data: Seq<u8>,
    )
        requires
            before.wf(),
            before.holds_at(at, key),
            self.entries@.len() == before.entries@.len(),
            self.entries@[at].key == key,
            self.entries@[at].data@ == data,
            forall|i: int|
                0 <= i < self.entries@.len() && i != at ==> #[trigger] self.entries@[i]
                    == before.entries@[i],
        ensures
            self.wf(),
            self@ == before@.insert(key, data),
    {
        assert forall|i: int, j: int| 0 <= i < j < self.entries@.len() implies (
        #[trigger] self.entries@[i]).key != (#[trigger] self.entries@[j]).key by {
            assert(before.entries@[i].key != before.entries@[j].key);
        }
        self.lemma_at(at, key);
        assert forall|k: ConvertedImageCacheKey| self@.dom().contains(k) == before@.insert(
            key,
            data,
        ).dom().contains(k) by {
            if self@.dom().contains(k) {
                let i = choose|i: int| self.holds_at(i, k);
                assert(before.holds_at(i, k));
            }
            if before@.dom().contains(k) {
                let i = choose|i: int| before.holds_at(i, k);
                assert(self.holds_at(i, k));
            }
        }
        assert forall|k: ConvertedImageCacheKey| #[trigger]
            self@.dom().contains(k) implies self@[k] == before@.insert(key, data)[k] by {
            let i = choose|i: int| self.holds_at(i, k);
            self.lemma_at(i, k);
            if k != key {
                before.lemma_at(i, k);
            }
        }
        assert(self@ =~= before@.insert(key, data));
    }

    proof fn lemma_pushed(
        self,
        before: ConvertedImageCache,
        key: ConvertedImageCacheKey,
        data: Seq<u8>,
    )
        requires
            before.wf(),
            before.entries@.len() < IMAGE_CACHE_LIMIT,
            !before@.dom().contains(key),
            self.entries@.len() == before.entries@.len() + 1,
            self.entries@.last().key == key,
            self.entries@.last().data@ == data,
            forall|i: int|
                0 <= i < before.entries@.len() ==> #[trigger] self.entries@[i]
                    == before.entries@[i],
        ensures
            self.wf(),
            self@ == before@.insert(key, data),
    {
        let last = before.entries@.len() as int;
        assert forall|i: int, j: int| 0 <= i < j < self.entries@.len() implies (
        #[trigger] self.entries@[i]).key != (#[trigger] self.entries@[j]).key by {
            if j == last {
                assert(!before.holds_at(i, key));
            } else {
                assert(before.entries@[i].key != before.entries@[j].key);
            }
        }
        self.lemma_at(last, key);
        assert forall|k: ConvertedImageCacheKey| self@.dom().contains(k) == before@.insert(
            key,
            data,
        ).dom().contains(k) by {
            if self@.dom().contains(k) {
                let i = choose|i: int| self.holds_at(i, k);
                if i != last {
                    assert(before.holds_at(i, k));
                }
            }
            if before@.dom().contains(k) {
                let i = choose|i: int| before.holds_at(i, k);
                assert(self.holds_at(i, k));
            }
        }
        assert forall|k: ConvertedImageCacheKey| #[trigger]
            self@.dom().contains(k) implies self@[k] == before@.insert(key, data)[k] by {
            let i = choose|i: int| self.holds_at(i, k);
            self.lemma_at(i, k);
            if k != key {
                before.lemma_at(i, k);
            }
        }
        assert(self@ =~= before@.insert(key, data));
    }

    /// There are never more kept pictures than the limit.
    pub proof fn never_exceeds_limit(self)
        requires
            self.wf(),
        ensures
            self@.dom().len() <= IMAGE_CACHE_LIMIT,
    {
        self.lemma_len();
    }
}

/// As long as there is room for one more of the sixty-four pictures, or the key
/// is not new, adding a picture leaves all others where they are. Where there
/// is no room, the new picture alone is left.
pub proof fn cache_forgets_only_when_full(
    before: Map<ConvertedImageCacheKey, Seq<u8>>,
    key: ConvertedImageCacheKey,
    data: Seq<u8>,
    other: ConvertedImageCacheKey,
)
    requires
        other != key,
    ensures
        ({
            let after = ConvertedImageCache::after_insert(before, key, data);
            &&& before.dom().contains(key) || before.dom().len() < 64 ==> {
                &&& after.dom().contains(other) <==> before.dom().contains(other)
                &&& before.dom().contains(other) ==> after[other] == before[other]
            }
            &&& !before.dom().contains(key) && before.dom().len() >= 64 ==> !after.dom().contains(
                other,
            )
        }),
{
}

/// What was added last is found under its key; what else is found was kept
/// before.
pub proof fn cache_returns_what_was_inserted(
    before: Map<ConvertedImageCacheKey, Seq<u8>>,
    key: ConvertedImageCacheKey,
    data: Seq<u8>,
    other: ConvertedImageCacheKey,
)
    requires
        other != key,
    ensures
        ({
            let after = ConvertedImageCache::after_insert(before, key, data);
            &&& after.dom().contains(key)
            &&& after[key] == data
            &&& after.dom().contains(other) ==> before.dom().contains(other) && after[other]
                == before[other]
        }),
{
}

} // verus!
