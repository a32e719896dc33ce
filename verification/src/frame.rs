//! Frames: the bitmaps that buttons show, and the rounding of their corners.

use vstd::prelude::*;

verus! {

/// How far the corners of a button are rounded, in pixels.
pub const BUTTON_CORNER_RADIUS: u32 = 16;

/// Red, green and blue.
pub type Pixel = (u8, u8, u8);

pub open spec fn black() -> Pixel {
    (0, 0, 0)
}

/// A bitmap in eight bits per channel: the samples of a pixel side by side,
/// the pixels of a row from left to right, the rows from top to bottom.
#[derive(Debug, PartialEq, Eq)]
pub struct RgbFrame {
    pub width: u32,
    pub height: u32,
    pub samples: Vec<u8>,
}

/// The samples of a bitmap of the given size.
pub open spec fn sample_count(width: u32, height: u32) -> int {
    3 * (width * height)
}

/// A bitmap of the given size can be held in memory.
pub open spec fn fits_memory(width: u32, height: u32) -> bool {
    sample_count(width, height) <= isize::MAX
}

/// Where the samples of a pixel start.
pub open spec fn sample_index(width: u32, x: int, y: int) -> int {
    3 * (y * width + x)
}

impl RgbFrame {
    pub open spec fn wf(self) -> bool {
        self.samples@.len() == sample_count(self.width, self.height)
    }

    pub open spec fn has(self, x: int, y: int) -> bool {
        0 <= x < self.width && 0 <= y < self.height
    }

    pub open spec fn pixel(self, x: int, y: int) -> Pixel {
        let at = sample_index(self.width, x, y);
        (self.samples@[at], self.samples@[at + 1], self.samples@[at + 2])
    }

    pub open spec fn same_size(self, other: RgbFrame) -> bool {
        self.width == other.width && self.height == other.height
    }

    /// Reads a pixel.
    pub fn get_pixel(&self, x: u32, y: u32) -> (pixel: Pixel)
        requires
            self.wf(),
            self.has(x as int, y as int),
        ensures
            pixel == self.pixel(x as int, y as int),
            pixel.0 == self.samples@[3 * (y * self.width + x)],
            pixel.1 == self.samples@[3 * (y * self.width + x) + 1],
            pixel.2 == self.samples@[3 * (y * self.width + x) + 2],
    {
        proof {
            lemma_sample_index(self.width, self.height, x as int, y as int);
            assert(self.samples.len() == self.samples@.len());
        }
        let row: usize = y as usize * self.width as usize;
        let at: usize = 3 * (row + x as usize);
        (self.samples[at], self.samples[at + 1], self.samples[at + 2])
    }

    /// Writes a pixel.
    pub fn put_pixel(&mut self, x: u32, y: u32, pixel: Pixel)
        requires
            old(self).wf(),
            old(self).has(x as int, y as int),
        ensures
            final(self).wf(),
            final(self).same_size(*old(self)),
            forall|px: int, py: int| #[trigger]
                final(self).has(px, py) ==> final(self).pixel(px, py) == if px == x && py == y {
                    pixel
                } else {
                    old(self).pixel(px, py)
                },
            final(self).samples@.len() == old(self).samples@.len(),
            final(self).samples@[3 * (y * old(self).width + x)] == pixel.0,
            final(self).samples@[3 * (y * old(self).width + x) + 1] == pixel.1,
            final(self).samples@[3 * (y * old(self).width + x) + 2] == pixel.2,
            forall|i: int|
                0 <= i < 3 * (y * old(self).width + x) || 3 * (y * old(self).width + x) + 3 <= i
                    < old(self).samples@.len() ==> #[trigger] final(self).samples@[i] == old(
                    self,
                ).samples@[i],
    {
        proof {
            lemma_sample_index(self.width, self.height, x as int, y as int);
            assert(self.samples.len() == self.samples@.len());
        }
        let row: usize = y as usize * self.width as usize;
        let at: usize = 3 * (row + x as usize);
        self.samples[at] = pixel.0;
        self.samples[at + 1] = pixel.1;
        self.samples[at + 2] = pixel.2;
        proof {
            assert forall|px: int, py: int| #[trigger] self.has(px, py) implies self.pixel(px, py)
                == if px == x && py == y {
                pixel
            } else {
                old(self).pixel(px, py)
            } by {
                lemma_sample_index(self.width, self.height, px, py);
                if !(px == x && py == y) {
                    lemma_sample_index_distinct(self.width, px, py, x as int, y as int);
                }
            }
        }
    }
}

pub(crate) proof fn lemma_sample_index(width: u32, height: u32, x: int, y: int)
    requires
        0 <= x < width,
        0 <= y < height,
    ensures
        0 <= y * width <= y * width + x < width * height,
        0 <= sample_index(width, x, y),
        sample_index(width, x, y) + 3 <= sample_count(width, height),
{
    assert(0 <= y * width && y * width + x < width * height) by (nonlinear_arith)
        requires
            0 <= x < width,
            0 <= y < height,
    ;
}

proof fn lemma_sample_index_distinct(width: u32, x: int, y: int, x2: int, y2: int)
    requires
        0 <= x < width,
        0 <= x2 < width,
        x != x2 || y != y2,
    ensures
        sample_index(width, x, y) + 3 <= sample_index(width, x2, y2) || sample_index(width, x2, y2)
            + 3 <= sample_index(width, x, y),
{
    let w = width as int;
    if y < y2 {
        assert(y * w + w <= y2 * w) by (nonlinear_arith)
            requires
                y < y2,
                0 < w,
        ;
    } else if y2 < y {
        assert(y2 * w + w <= y * w) by (nonlinear_arith)
            requires
                y2 < y,
                0 < w,
        ;
    }
}

/// One channel of a pixel.
pub open spec fn channel(pixel: Pixel, index: int) -> u8 {
    if index == 0 {
        pixel.0
    } else if index == 1 {
        pixel.1
    } else {
        pixel.2
    }
}

/// The samples of a frame of the given size that is painted pixel by pixel.
pub open spec fn painted(width: u32, height: u32, paint: spec_fn(int, int) -> Pixel) -> Seq<u8> {
    Seq::new(
        sample_count(width, height) as nat,
        |i: int| channel(paint((i / 3) % (width as int), (i / 3) / (width as int)), i % 3),
    )
}

/// A frame is no more than its size and its pixels.
pub proof fn pixels_make_the_frame(frame: RgbFrame, paint: spec_fn(int, int) -> Pixel)
    requires
        frame.wf(),
        forall|x: int, y: int| #[trigger] frame.has(x, y) ==> frame.pixel(x, y) == paint(x, y),
    ensures
        frame.samples@ == painted(frame.width, frame.height, paint),
{
    let w = frame.width as int;
    let h = frame.height as int;
    let samples = painted(frame.width, frame.height, paint);
    assert(0 <= w * h) by (nonlinear_arith)
        requires
            0 <= w,
            0 <= h,
    ;
    assert forall|i: int| 0 <= i < frame.samples@.len() implies frame.samples@[i]
        == samples[i] by {
        let p = i / 3;
        assert(0 <= p < w * h);
        assert(0 < w && 0 < h) by (nonlinear_arith)
            requires
                0 < w * h,
                0 <= w,
                0 <= h,
        ;
        let x = p % w;
        let y = p / w;
        vstd::arithmetic::div_mod::lemma_fundamental_div_mod(p, w);
        assert(0 <= x < w && p == w * y + x);
        assert(0 <= y < h) by (nonlinear_arith)
            requires
                0 <= p < w * h,
                p == w * y + x,
                0 <= x < w,
        ;
        assert(w * y == y * w) by (nonlinear_arith);
        assert(frame.has(x, y));
        assert(frame.pixel(x, y) == paint(x, y));
        assert(sample_index(frame.width, x, y) == 3 * p);
    }
    assert(frame.samples@ =~= samples);
}

/// The samples of a frame that is black all over.
pub open spec fn black_samples(width: u32, height: u32) -> Seq<u8> {
    Seq::new(sample_count(width, height) as nat, |i: int| 0u8)
}

/// A frame that is black all over.
pub fn blank_button_image(width: u32, height: u32) -> (frame: RgbFrame)
    requires
        fits_memory(width, height),
    ensures
        frame.wf(),
        frame.width == width,
        frame.height == height,
        frame.samples@ == black_samples(width, height),
        frame.samples@.len() == 3 * (width * height),
        forall|i: int| 0 <= i < frame.samples@.len() ==> #[trigger] frame.samples@[i] == 0,
        forall|x: int, y: int| #[trigger] frame.has(x, y) ==> frame.pixel(x, y) == black(),
{
    let samples: Vec<u8> = vec![0u8; 3 * (width as usize * height as usize)];
    let frame = RgbFrame { width, height, samples };
    assert forall|x: int, y: int| #[trigger] frame.has(x, y) implies frame.pixel(x, y)
        == black() by {
        lemma_sample_index(width, height, x, y);
    }
    frame
}

/// How far a pixel lies from the straight part of a side of the given length
/// whose ends are rounded, or `None` where the side is straight.
pub open spec fn corner_offset(at: int, length: int, radius: int) -> Option<int> {
    if at < radius {
        Some(radius - 1 - at)
    } else if at >= length - radius {
        Some(at - (length - radius))
    } else {
        None
    }
}

/// Whether a pixel lies outside the rectangle with rounded corners: in both
/// directions within a corner, and not within the radius of its centre.
pub open spec fn outside_rounded_rect(x: int, y: int, width: int, height: int, radius: int) -> bool {
    match (corner_offset(x, width, radius), corner_offset(y, height, radius)) {
        (Some(dx), Some(dy)) => dx * dx + dy * dy >= radius * radius,
        _ => false,
    }
}

/// The squared distance that decides about a pixel can be held.
pub open spec fn distance_fits(x: int, y: int, width: int, height: int, radius: int) -> bool {
    match (corner_offset(x, width, radius), corner_offset(y, height, radius)) {
        (Some(dx), Some(dy)) => dx * dx + dy * dy <= u64::MAX,
        _ => true,
    }
}

/// Whether a pixel lies outside the rectangle with rounded corners.
pub fn pixel_is_outside_rounded_rect(
    x: u32,
    y: u32,
    width: u32,
    height: u32,
    radius: u32,
) -> (outside: bool)
    requires
        radius <= width,
        radius <= height,
        distance_fits(x as int, y as int, width as int, height as int, radius as int),
    ensures
        outside == outside_rounded_rect(
            x as int,
            y as int,
            width as int,
            height as int,
            radius as int,
        ),
        radius <= x < width - radius || radius <= y < height - radius ==> !outside,
        x < radius && y < radius ==> (outside <==> (radius - 1 - x) * (radius - 1 - x) + (radius - 1
            - y) * (radius - 1 - y) >= radius * radius),
        x >= radius && x >= width - radius && y < radius ==> (outside <==> (x - (width - radius))
            * (x - (width - radius)) + (radius - 1 - y) * (radius - 1 - y) >= radius * radius),
        x < radius && y >= radius && y >= height - radius ==> (outside <==> (radius - 1 - x) * (
        radius - 1 - x) + (y - (height - radius)) * (y - (height - radius)) >= radius * radius),
        x >= radius && x >= width - radius && y >= radius && y >= height - radius ==> (outside
            <==> (x - (width - radius)) * (x - (width - radius)) + (y - (height - radius)) * (y - (
        height - radius)) >= radius * radius),
{
    let right_start: u32 = width - radius;
    let bottom_start: u32 = height - radius;
    assert(radius * radius <= u64::MAX) by (nonlinear_arith)
        requires
            0 <= radius <= u32::MAX,
    ;
    let radius_squared: u64 = radius as u64 * radius as u64;
    let dx: Option<u64> = if x < radius {
        Some((radius - 1 - x) as u64)
    } else if x >= right_start {
        Some((x - right_start) as u64)
    } else {
        None
    };
    let dy: Option<u64> = if y < radius {
        Some((radius - 1 - y) as u64)
    } else if y >= bottom_start {
        Some((y - bottom_start) as u64)
    } else {
        None
    };
    match (dx, dy) {
        (Some(dx), Some(dy)) => {
            assert(0 <= dx * dx && 0 <= dy * dy) by (nonlinear_arith)
                requires
                    0 <= dx,
                    0 <= dy,
            ;
            dx * dx + dy * dy >= radius_squared
        },
        _ => false,
    }
}

/// The radius that a frame's corners are rounded by: the one asked for, or as
/// much as the frame has room for.
pub open spec fn effective_radius(width: u32, height: u32, radius: u32) -> u32 {
    let half_width = (width / 2) as u32;
    let half_height = (height / 2) as u32;
    let fitted = if half_width < radius {
        half_width
    } else {
        radius
    };
    if half_height < fitted {
        half_height
    } else {
        fitted
    }
}

/// Whether rounding the corners of a frame of the given size blackens a pixel.
pub open spec fn rounded_off(width: u32, height: u32, radius: u32, x: int, y: int) -> bool {
    outside_rounded_rect(
        x,
        y,
        width as int,
        height as int,
        effective_radius(width, height, radius) as int,
    )
}

impl RgbFrame {
    /// This frame is the given one with its corners rounded: black outside
    /// them, and otherwise the same.
    pub open spec fn is_rounding_of(self, image: RgbFrame, radius: u32) -> bool {
        &&& self.wf()
        &&& self.same_size(image)
        &&& forall|x: int, y: int| #[trigger]
            self.has(x, y) ==> self.pixel(x, y) == if rounded_off(
                image.width,
                image.height,
                radius,
                x,
                y,
            ) {
                black()
            } else {
                image.pixel(x, y)
            }
    }
}

proof fn lemma_distance_fits(x: int, y: int, width: int, height: int, radius: int)
    requires
        0 <= x < width,
        0 <= y < height,
        0 <= radius <= 0x8000_0000,
    ensures
        distance_fits(x, y, width, height, radius),
{
    if let (Some(dx), Some(dy)) = (
        corner_offset(x, width, radius),
        corner_offset(y, height, radius),
    ) {
        assert(dx * dx + dy * dy <= u64::MAX) by (nonlinear_arith)
            requires
                0 <= dx < 0x8000_0000,
                0 <= dy < 0x8000_0000,
        ;
    }
}

/// Blackens what lies outside the rounded corners of a frame.
pub fn apply_rounded_corners(image: &mut RgbFrame, radius: u32)
    requires
        old(image).wf(),
    ensures
        final(image).is_rounding_of(*old(image), radius),
        final(image).width == old(image).width,
        final(image).height == old(image).height,
        final(image).samples@.len() == old(image).samples@.len(),
        forall|r: int, x: int, y: int|
            0 <= r <= radius && 2 * r <= old(image).width && 2 * r <= old(image).height && (r == radius || old(image).width < 2 * r + 2 || old(image).height < 2 * r + 2)
                && 0 <= x < old(image).width && 0 <= y < old(image).height ==> {
                let at = 3 * (y * old(image).width + x);
                let off = {
                    ||| x < r && y < r && (r - 1 - x) * (r - 1 - x) + (r - 1 - y) * (r - 1 - y) >= r * r
                    ||| old(image).width - r <= x && y < r && (x - (old(image).width - r)) * (x - (old(image).width - r)) + (r - 1 - y) * (r - 1 - y)
                        >= r * r
                    ||| x < r && old(image).height - r <= y && (r - 1 - x) * (r - 1 - x) + (y - (old(image).height - r)) * (y - (old(image).height - r))
                        >= r * r
                    ||| old(image).width - r <= x && old(image).height - r <= y && (x - (old(image).width - r)) * (x - (old(image).width - r)) + (y - (old(image).height - r)) * (y - (
                    old(image).height - r)) >= r * r
                };
                &&& #[trigger] outside_rounded_rect(x, y, old(image).width as int, old(image).height as int, r) <==> off
                &&& off ==> {
                    &&& final(image).samples@[at] == 0
                    &&& final(image).samples@[at + 1] == 0
                    &&& final(image).samples@[at + 2] == 0
                }
                &&& !off ==> {
                    &&& final(image).samples@[at] == old(image).samples@[at]
                    &&& final(image).samples@[at + 1] == old(image).samples@[at + 1]
                    &&& final(image).samples@[at + 2] == old(image).samples@[at + 2]
                }
            },
{
    let width: u32 = image.width;
    let height: u32 = image.height;
    let mut limit: u32 = radius;
    if width / 2 < limit {
        limit = width / 2;
    }
    if height / 2 < limit {
        limit = height / 2;
    }
    let ghost before = *image;
    if limit == 0 {
        proof {
            corners_are_black_and_the_rest_is_kept(before, *image, radius);
        }
        return ;
    }
    let mut y: u32 = 0;
    while y < height
        invariant
            image.wf(),
            image.same_size(before),
            width == before.width,
            height == before.height,
            limit == effective_radius(width, height, radius),
            y <= height,
            forall|px: int, py: int| #[trigger]
                image.has(px, py) ==> image.pixel(px, py) == if py < y && rounded_off(
                    width,
                    height,
                    radius,
                    px,
                    py,
                ) {
                    black()
                } else {
                    before.pixel(px, py)
                },
        decreases height - y,
    {
        let mut x: u32 = 0;
        while x < width
            invariant
                image.wf(),
                image.same_size(before),
                width == before.width,
                height == before.height,
                limit == effective_radius(width, height, radius),
                x <= width,
                y < height,
                forall|px: int, py: int| #[trigger]
                    image.has(px, py) ==> image.pixel(px, py) == if (py < y || py == y && px < x)
                        && rounded_off(width, height, radius, px, py) {
                        black()
                    } else {
                        before.pixel(px, py)
                    },
            decreases width - x,
        {
            proof {
                lemma_distance_fits(
                    x as int,
                    y as int,
                    width as int,
                    height as int,
                    limit as int,
                );
            }
            let ghost earlier = *image;
            if pixel_is_outside_rounded_rect(x, y, width, height, limit) {
                image.put_pixel(x, y, (0, 0, 0));
            }
            x += 1;
            assert forall|px: int, py: int| #[trigger] image.has(px, py) implies image.pixel(px, py)
                == if (py < y || py == y && px < x) && rounded_off(width, height, radius, px, py) {
                black()
            } else {
                before.pixel(px, py)
            } by {
                assert(earlier.has(px, py));
            }
        }
        y += 1;
    }
    proof {
        corners_are_black_and_the_rest_is_kept(before, *image, radius);
    }
}

/// Rounding the corners of a frame blackens the samples of the pixels in its
/// four corners that are as far as the radius or farther from where the corner's
/// circle has its centre, and keeps all others. The radius is the one asked
/// for, or half of the shorter side if that is less.
pub proof fn corners_are_black_and_the_rest_is_kept(
    before: RgbFrame,
    after: RgbFrame,
    radius: u32,
)
    requires
        before.wf(),
        after.is_rounding_of(before, radius),
    ensures
        after.width == before.width,
        after.height == before.height,
        after.samples@.len() == before.samples@.len(),
        forall|r: int, x: int, y: int|
            0 <= r <= radius && 2 * r <= before.width && 2 * r <= before.height && (r == radius || before.width < 2 * r + 2 || before.height < 2 * r + 2)
                && 0 <= x < before.width && 0 <= y < before.height ==> {
                let at = 3 * (y * before.width + x);
                let off = {
                    ||| x < r && y < r && (r - 1 - x) * (r - 1 - x) + (r - 1 - y) * (r - 1 - y) >= r * r
                    ||| before.width - r <= x && y < r && (x - (before.width - r)) * (x - (before.width - r)) + (r - 1 - y) * (r - 1 - y)
                        >= r * r
                    ||| x < r && before.height - r <= y && (r - 1 - x) * (r - 1 - x) + (y - (before.height - r)) * (y - (before.height - r))
                        >= r * r
                    ||| before.width - r <= x && before.height - r <= y && (x - (before.width - r)) * (x - (before.width - r)) + (y - (before.height - r)) * (y - (
                    before.height - r)) >= r * r
                };
                &&& #[trigger] outside_rounded_rect(x, y, before.width as int, before.height as int, r) <==> off
                &&& off ==> {
                    &&& after.samples@[at] == 0
                    &&& after.samples@[at + 1] == 0
                    &&& after.samples@[at + 2] == 0
                }
                &&& !off ==> {
                    &&& after.samples@[at] == before.samples@[at]
                    &&& after.samples@[at + 1] == before.samples@[at + 1]
                    &&& after.samples@[at + 2] == before.samples@[at + 2]
                }
            },
{
    assert forall|r: int, x: int, y: int|
        0 <= r <= radius && 2 * r <= before.width && 2 * r <= before.height && (r == radius || before.width < 2 * r + 2 || before.height < 2 * r + 2)
            && 0 <= x < before.width && 0 <= y < before.height  implies {
            let at = 3 * (y * before.width + x);
            let off = {
                ||| x < r && y < r && (r - 1 - x) * (r - 1 - x) + (r - 1 - y) * (r - 1 - y) >= r * r
                ||| before.width - r <= x && y < r && (x - (before.width - r)) * (x - (before.width - r)) + (r - 1 - y) * (r - 1 - y)
                    >= r * r
                ||| x < r && before.height - r <= y && (r - 1 - x) * (r - 1 - x) + (y - (before.height - r)) * (y - (before.height - r))
                    >= r * r
                ||| before.width - r <= x && before.height - r <= y && (x - (before.width - r)) * (x - (before.width - r)) + (y - (before.height - r)) * (y - (
                before.height - r)) >= r * r
            };
            &&& #[trigger] outside_rounded_rect(x, y, before.width as int, before.height as int, r) <==> off
            &&& off ==> {
                &&& after.samples@[at] == 0
                &&& after.samples@[at + 1] == 0
                &&& after.samples@[at + 2] == 0
            }
            &&& !off ==> {
                &&& after.samples@[at] == before.samples@[at]
                &&& after.samples@[at + 1] == before.samples@[at + 1]
                &&& after.samples@[at + 2] == before.samples@[at + 2]
            }
        } by {
        assert(effective_radius(before.width, before.height, radius) == r);
        assert(after.has(x, y));
        assert(after.pixel(x, y) == if rounded_off(before.width, before.height, radius, x, y) {
            black()
        } else {
            before.pixel(x, y)
        });
        assert(sample_index(before.width, x, y) == 3 * (y * before.width + x));
    }
}

impl RgbFrame {
    /// Whether another frame fits into this one at a place.
    pub open spec fn has_room(self, other: RgbFrame, x: u32, y: u32) -> bool {
        x + other.width <= self.width && y + other.height <= self.height
    }

    /// Copies another frame into this one, its upper left corner at the given
    /// place. Where it does not fit, nothing is copied.
    pub fn copy_from(&mut self, other: &RgbFrame, x: u32, y: u32) -> (copied: bool)
        requires
            old(self).wf(),
            other.wf(),
        ensures
            final(self).wf(),
            final(self).same_size(*old(self)),
            copied == old(self).has_room(*other, x, y),
            forall|px: int, py: int| #[trigger]
                final(self).has(px, py) ==> final(self).pixel(px, py) == if copied && other.has(
                    px - x,
                    py - y,
                ) {
                    other.pixel(px - x, py - y)
                } else {
                    old(self).pixel(px, py)
                },
            final(self).width == old(self).width,
            final(self).height == old(self).height,
            final(self).samples@.len() == old(self).samples@.len(),
            copied <==> x + other.width <= old(self).width && y + other.height <= old(
                self,
            ).height,
            forall|px: int, py: int|
                0 <= px < old(self).width && 0 <= py < old(self).height ==> {
                    let at = 3 * (py * old(self).width + px);
                    let from = 3 * ((py - y) * other.width + (px - x));
                    let within = copied && x <= px < x + other.width && y <= py < y + other.height;
                    &&& #[trigger] final(self).has(px, py)
                    &&& within ==> {
                        &&& final(self).samples@[at] == other.samples@[from]
                        &&& final(self).samples@[at + 1] == other.samples@[from + 1]
                        &&& final(self).samples@[at + 2] == other.samples@[from + 2]
                    }
                    &&& !within ==> {
                        &&& final(self).samples@[at] == old(self).samples@[at]
                        &&& final(self).samples@[at + 1] == old(self).samples@[at + 1]
                        &&& final(self).samples@[at + 2] == old(self).samples@[at + 2]
                    }
                },
    {
        if other.width > self.width || other.height > self.height {
            return false;
        }
        if x > self.width - other.width || y > self.height - other.height {
            return false;
        }
        let ghost before = *self;
        let mut row: u32 = 0;
        while row < other.height
            invariant
                self.wf(),
                other.wf(),
                self.same_size(before),
                before.has_room(*other, x, y),
                row <= other.height,
                forall|px: int, py: int| #[trigger]
                    self.has(px, py) ==> self.pixel(px, py) == if other.has(px - x, py - y) && py
                        - y < row {
                        other.pixel(px - x, py - y)
                    } else {
                        before.pixel(px, py)
                    },
            decreases other.height - row,
        {
            let mut column: u32 = 0;
            while column < other.width
                invariant
                    self.wf(),
                    other.wf(),
                    self.same_size(before),
                    before.has_room(*other, x, y),
                    row < other.height,
                    column <= other.width,
                    forall|px: int, py: int| #[trigger]
                        self.has(px, py) ==> self.pixel(px, py) == if other.has(px - x, py - y) && (
                        py - y < row || py - y == row && px - x < column) {
                            other.pixel(px - x, py - y)
                        } else {
                            before.pixel(px, py)
                        },
                decreases other.width - column,
            {
                let ghost earlier = *self;
                self.put_pixel(x + column, y + row, other.get_pixel(column, row));
                column += 1;
                assert forall|px: int, py: int| #[trigger] self.has(px, py) implies self.pixel(
                    px,
                    py,
                ) == if other.has(px - x, py - y) && (py - y < row || py - y == row && px - x
                    < column) {
                    other.pixel(px - x, py - y)
                } else {
                    before.pixel(px, py)
                } by {
                    assert(earlier.has(px, py));
                }
            }
            row += 1;
        }
        true
    }
}

/// The rounding looks the same from all four corners.
pub proof fn rounding_is_symmetric(width: u32, height: u32, radius: u32, x: int, y: int)
    requires
        0 <= x < width,
        0 <= y < height,
    ensures
        rounded_off(width, height, radius, x, y) == rounded_off(
            width,
            height,
            radius,
            width - 1 - x,
            y,
        ),
        rounded_off(width, height, radius, x, y) == rounded_off(
            width,
            height,
            radius,
            x,
            height - 1 - y,
        ),
{
}

/// The four corner pixels of a frame are blackened from a radius of four
/// pixels on.
pub proof fn corner_pixels_are_rounded_off(width: u32, height: u32, radius: u32)
    requires
        effective_radius(width, height, radius) >= 4,
    ensures
        rounded_off(width, height, radius, 0, 0),
        rounded_off(width, height, radius, width - 1, 0),
        rounded_off(width, height, radius, 0, height - 1),
        rounded_off(width, height, radius, width - 1, height - 1),
{
    let r = effective_radius(width, height, radius) as int;
    assert((r - 1) * (r - 1) + (r - 1) * (r - 1) >= r * r) by (nonlinear_arith)
        requires
            r >= 4,
    ;
}

/// Nothing is blackened in the rows and columns between the corners.
pub proof fn middle_is_kept(width: u32, height: u32, radius: u32, x: int, y: int)
    requires
        0 <= x < width,
        0 <= y < height,
        ({
            let r = effective_radius(width, height, radius);
            r <= x < width - r || r <= y < height - r
        }),
    ensures
        !rounded_off(width, height, radius, x, y),
{
}

/// Rounding the corners of a frame a second time changes nothing.
pub proof fn rounding_twice_is_rounding_once(
    image: RgbFrame,
    once: RgbFrame,
    twice: RgbFrame,
    radius: u32,
)
    requires
        once.is_rounding_of(image, radius),
        twice.is_rounding_of(once, radius),
    ensures
        twice.same_size(once),
        forall|x: int, y: int| #[trigger] twice.has(x, y) ==> twice.pixel(x, y) == once.pixel(x, y),
{
    assert forall|x: int, y: int| #[trigger] twice.has(x, y) implies twice.pixel(x, y)
        == once.pixel(x, y) by {
        assert(once.has(x, y));
    }
}

} // verus!
