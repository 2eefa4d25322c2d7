//! What the graphics adapter supports, as far as the renderer's choices
//! depend on it.

use vstd::prelude::*;

verus! {

/// A floating-point texture format for HDR rendering.
#[derive(Debug, Clone, Copy, PartialEq, Eq, Structural)]
pub enum HdrFormat {
    /// Four 16-bit float channels.
    Rgba16Float,
    /// Four 32-bit float channels.
    Rgba32Float,
}

/// Whether the adapter can sample and filter each HDR format, and the format
/// the renderer uses.
#[derive(Debug, Clone, Copy, PartialEq, Eq, Structural)]
pub struct HardwareCaps {
    pub hdr_16_filterable: bool,
    pub hdr_32_filterable: bool,
    pub preferred_hdr_format: HdrFormat,
}

/// Whether a texture format can be used for filtered sampling: it may be
/// bound as a texture and its features include filtering.
pub fn filterable(texture_binding: bool, filterable_flag: bool) -> (r: bool)
    ensures
        r == (texture_binding && filterable_flag),
{
    texture_binding && filterable_flag
}

impl HardwareCaps {
    /// The capabilities from what the adapter reports: the 16-bit format is
    /// preferred when it can be filtered, else the 32-bit one.
    pub fn from_support(hdr_16_filterable: bool, hdr_32_filterable: bool) -> (c: Self)
        ensures
            c.hdr_16_filterable == hdr_16_filterable,
            c.hdr_32_filterable == hdr_32_filterable,
            c.preferred_hdr_format == (if hdr_16_filterable {
                HdrFormat::Rgba16Float
            } else {
                HdrFormat::Rgba32Float
            }),
    {
        let preferred_hdr_format = if hdr_16_filterable {
            HdrFormat::Rgba16Float
        } else {
            HdrFormat::Rgba32Float
        };
        HardwareCaps { hdr_16_filterable, hdr_32_filterable, preferred_hdr_format }
    }
}

} // verus!
