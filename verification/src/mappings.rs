//! The deck's shape, the models that are known, and the picture format of a
//! button.

use vstd::prelude::*;

use crate::error::DeviceError;

verus! {

pub const ROW_COUNT: usize = 3;

pub const COL_COUNT: usize = 5;

/// Buttons of a deck: three rows of five.
pub const KEY_COUNT: usize = 15;

/// A deck has no knobs.
pub const ENCODER_COUNT: usize = 0;

/// Vendor of every known model.
pub const VENDOR_ID: u16 = 0x3142;

pub const AMPGD6_PID: u16 = 0x0007;

pub const AMPGD6R2_PID: u16 = 0x0060;

/// A known model.
#[derive(Debug, Clone, Copy, PartialEq, Eq, Structural)]
pub enum Kind {
    /// FIFINE Ampligame D6.
    AMPGD6,
    /// FIFINE Ampligame D6 Rev. 2.
    AMPGD6R2,
}

/// The model that announces itself with this vendor and product.
pub open spec fn known_kind(vid: u16, pid: u16) -> Option<Kind> {
    if vid == VENDOR_ID && pid == AMPGD6_PID {
        Some(Kind::AMPGD6)
    } else if vid == VENDOR_ID && pid == AMPGD6R2_PID {
        Some(Kind::AMPGD6R2)
    } else {
        None
    }
}

impl Kind {
    /// The model that announces itself with this vendor and product.
    pub fn from_vid_pid(vid: u16, pid: u16) -> (kind: Option<Kind>)
        ensures
            kind == known_kind(vid, pid),
            kind == Some(Kind::AMPGD6) <==> vid == 0x3142 && pid == 0x0007,
            kind == Some(Kind::AMPGD6R2) <==> vid == 0x3142 && pid == 0x0060,
    {
        if vid != VENDOR_ID {
            None
        } else if pid == AMPGD6_PID {
            Some(Kind::AMPGD6)
        } else if pid == AMPGD6R2_PID {
            Some(Kind::AMPGD6R2)
        } else {
            None
        }
    }

    /// The version of the protocol that the model speaks.
    pub fn protocol_version(&self) -> (version: usize)
        ensures
            version == match *self {
                Kind::AMPGD6 => 1usize,
                Kind::AMPGD6R2 => 3usize,
            },
    {
        match self {
            Kind::AMPGD6 => 1,
            Kind::AMPGD6R2 => 3,
        }
    }
}

/// Each model is known by its own product number, and nothing of another vendor
/// or with another number is a model.
pub proof fn models_are_known_by_their_numbers(vid: u16, pid: u16)
    ensures
        known_kind(vid, pid) == Some(Kind::AMPGD6) <==> vid == 0x3142 && pid == 0x0007,
        known_kind(vid, pid) == Some(Kind::AMPGD6R2) <==> vid == 0x3142 && pid == 0x0060,
        known_kind(vid, pid) is None <==> vid != 0x3142 || pid != 0x0007 && pid != 0x0060,
{
}

/// The model of an open device, or `BadData` for a device of no known model.
pub fn resolve_device_kind(vid: u16, pid: u16) -> (r: Result<Kind, DeviceError>)
    ensures
        match known_kind(vid, pid) {
            Some(kind) => r == Ok::<Kind, DeviceError>(kind),
            None => r == Err::<Kind, DeviceError>(DeviceError::BadData),
        },
        r == Ok::<Kind, DeviceError>(Kind::AMPGD6) <==> vid == 0x3142 && pid == 0x0007,
        r == Ok::<Kind, DeviceError>(Kind::AMPGD6R2) <==> vid == 0x3142 && pid == 0x0060,
        r matches Err(err) ==> err is BadData,
{
    match Kind::from_vid_pid(vid, pid) {
        Some(kind) => Ok(kind),
        None => Err(DeviceError::BadData),
    }
}

/// How a button's picture is encoded.
#[derive(Debug, Clone, Copy, PartialEq, Eq, Hash, Structural)]
pub enum ImageMode {
    NoImage,
    BMP,
    JPEG,
}

/// How far a button's picture is turned before it is sent.
#[derive(Debug, Clone, Copy, PartialEq, Eq, Hash, Structural)]
pub enum ImageRotation {
    Rot0,
    Rot90,
    Rot180,
    Rot270,
}

/// Along which axes a button's picture is mirrored before it is sent.
#[derive(Debug, Clone, Copy, PartialEq, Eq, Hash, Structural)]
pub enum ImageMirroring {
    Unmirrored,
    X,
    Y,
    Both,
}

/// The picture format that a button takes.
#[derive(Debug, Clone, Copy, PartialEq, Eq, Hash)]
pub struct ImageFormat {
    pub mode: ImageMode,
    /// Width and height in pixels.
    pub size: (usize, usize),
    pub rotation: ImageRotation,
    pub mirror: ImageMirroring,
}

} // verus!
