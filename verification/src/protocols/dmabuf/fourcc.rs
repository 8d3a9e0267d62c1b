//! The four-character codes of pixel formats.
use drm_fourcc::DrmFourcc;
use vstd::prelude::*;

verus! {

pub const ABGR1555: u32 = 892420673;

pub const ABGR16161616F: u32 = 1211384385;

pub const ABGR2101010: u32 = 808665665;

pub const ABGR4444: u32 = 842089025;

pub const ABGR8888: u32 = 875708993;

pub const ARGB1555: u32 = 892424769;

pub const ARGB16161616F: u32 = 1211388481;

pub const ARGB2101010: u32 = 808669761;

pub const ARGB4444: u32 = 842093121;

pub const ARGB8888: u32 = 875713089;

pub const AXBXGXRX106106106106: u32 = 808534593;

pub const AYUV: u32 = 1448433985;

pub const RGBA1010102: u32 = 808665426;

pub const RGBA4444: u32 = 842088786;

pub const RGBA5551: u32 = 892420434;

pub const RGBA8888: u32 = 875708754;

/// Whether a number is the code of a pixel format that [`DrmFourcc`] has a name for.
pub uninterp spec fn fourcc_known(code: u32) -> bool;

/// `DrmFourcc::try_from`: a format is recognised by its code and has that code as its number.
/// Which codes are recognised is left unsaid.
#[verifier::external_body]
fn recognize(code: u32) -> (r: Option<u32>)
    ensures
        r == (if fourcc_known(code) {
            Some(code)
        } else {
            None
        }),
{
    match DrmFourcc::try_from(code) {
        Ok(format) => Some(format as u32),
        Err(_) => None,
    }
}

/// A pixel format.
#[derive(Debug, Clone, Copy, PartialEq, Eq, Structural)]
pub struct Fourcc {
    pub code: u32,
}

/// Whether the pixels of a format say how much of what is behind them shows through.
pub open spec fn has_alpha(code: u32) -> bool {
    ||| code == ABGR1555
    ||| code == ABGR16161616F
    ||| code == ABGR2101010
    ||| code == ABGR4444
    ||| code == ABGR8888
    ||| code == ARGB1555
    ||| code == ARGB16161616F
    ||| code == ARGB2101010
    ||| code == ARGB4444
    ||| code == ARGB8888
    ||| code == AXBXGXRX106106106106
    ||| code == AYUV
    ||| code == RGBA1010102
    ||| code == RGBA4444
    ||| code == RGBA5551
    ||| code == RGBA8888
}

impl Fourcc {
    /// The format with a code, where there is one.
    pub fn recognized(code: u32) -> (r: Option<Fourcc>)
        ensures
            r == (if fourcc_known(code) {
                Some(Fourcc { code })
            } else {
                None
            }),
    {
        match recognize(code) {
            Some(code) => Some(Fourcc { code }),
            None => None,
        }
    }

    pub fn has_alpha(&self) -> (r: bool)
        ensures
            r == has_alpha(self.code),
    {
        let code: u32 = self.code;
        code == ABGR1555 || code == ABGR16161616F || code == ABGR2101010 || code == ABGR4444
            || code == ABGR8888 || code == ARGB1555 || code == ARGB16161616F || code
            == ARGB2101010 || code == ARGB4444 || code == ARGB8888 || code
            == AXBXGXRX106106106106 || code == AYUV || code == RGBA1010102 || code == RGBA4444
            || code == RGBA5551 || code == RGBA8888
    }
}

} // verus!
