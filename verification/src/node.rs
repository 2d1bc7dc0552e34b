//! The enumerations that describe a layout node.

use vstd::prelude::*;

verus! {

/// What a node draws.
#[derive(Copy, Clone, Debug, PartialEq, Eq)]
pub enum SFNodeKind {
    Empty,
    Rect,
    Text,
    Stack,
    Spacer,
    Image,
    Scroll,
    Icon,
}

/// The axis along which a stack lays out its children.
#[derive(Copy, Clone, Debug, PartialEq, Eq)]
pub enum SFAxis {
    Vertical,
    Horizontal,
    Depth,
}

/// Placement of content inside the space it is given.
#[derive(Copy, Clone, Debug, PartialEq, Eq)]
pub enum SFAlignment {
    Leading,
    Center,
    Trailing,
}

/// How an image is fitted into its frame.
#[derive(Copy, Clone, Debug, PartialEq, Eq)]
pub enum SFContentMode {
    Fit,
    Fill,
    Stretch,
}

/// The font family a text node asks for.
#[derive(Copy, Clone, Debug, PartialEq, Eq, Hash, PartialOrd, Ord)]
pub enum SFFontFamily {
    Sans,
    Monospaced,
    Serif,
    Rounded,
    Icon,
}

/// How a node sizes itself along one axis.
#[derive(Copy, Clone, Debug, PartialEq, Eq)]
pub enum SFSizing {
    Hug,
    Fill,
    Fixed,
}

/// One scroll container under a point, as the C interface reports it:
/// its id and the axis it scrolls along.
#[derive(Copy, Clone, Debug, PartialEq, Eq)]
pub struct SFScrollHit {
    pub scroll_id: u32,
    pub axis: u32,
}

/// The raw value that the C interface uses for each family.
pub open spec fn family_raw(f: SFFontFamily) -> u32 {
    match f {
        SFFontFamily::Sans => 0,
        SFFontFamily::Monospaced => 1,
        SFFontFamily::Serif => 2,
        SFFontFamily::Rounded => 3,
        SFFontFamily::Icon => 4,
    }
}

impl SFFontFamily {
    /// The family with raw value `raw`; any unknown value means `Sans`.
    pub fn from_raw(raw: u32) -> (f: SFFontFamily)
        ensures
            raw <= 4 ==> family_raw(f) == raw,
            raw > 4 ==> f == SFFontFamily::Sans,
    {
        match raw {
            1 => SFFontFamily::Monospaced,
            2 => SFFontFamily::Serif,
            3 => SFFontFamily::Rounded,
            4 => SFFontFamily::Icon,
            _ => SFFontFamily::Sans,
        }
    }

    /// The raw value of this family in the C interface.
    pub fn raw(self) -> (r: u32)
        ensures
            r == family_raw(self),
    {
        match self {
            SFFontFamily::Sans => 0,
            SFFontFamily::Monospaced => 1,
            SFFontFamily::Serif => 2,
            SFFontFamily::Rounded => 3,
            SFFontFamily::Icon => 4,
        }
    }

    /// Whether a font file for this family ships with the toolkit: the
    /// sans, monospaced and icon families do; serif and rounded do not.
    pub fn is_bundled(self) -> (b: bool)
        ensures
            b <==> (self == SFFontFamily::Sans || self == SFFontFamily::Monospaced
                || self == SFFontFamily::Icon),
    {
        match self {
            SFFontFamily::Sans | SFFontFamily::Monospaced | SFFontFamily::Icon => true,
            _ => false,
        }
    }
}

/// The family that a default-constructed node uses.
impl Default for SFFontFamily {
    fn default() -> (f: SFFontFamily)
        ensures
            f == SFFontFamily::Sans,
    {
        SFFontFamily::Sans
    }
}

} // verus!
