//! The icon font: which code points are icons, and which face of the icon
//! font draws them.

use vstd::prelude::*;

verus! {

/// The first code point of the Private Use Area, where the icon font
/// places its glyphs.
pub const PUA_START: u32 = 0xE000;
/// The last code point of the Private Use Area.
pub const PUA_END: u32 = 0xF8FF;

/// The weights the icon font comes in.
#[derive(Copy, Clone, Debug, PartialEq, Eq)]
pub enum IconFace {
    Thin,
    Light,
    Regular,
    Bold,
    Fill,
}

/// The font data of each face of the icon font that is available.
pub struct IconFaces {
    pub thin: Option<&'static [u8]>,
    pub light: Option<&'static [u8]>,
    pub regular: Option<&'static [u8]>,
    pub bold: Option<&'static [u8]>,
    pub fill: Option<&'static [u8]>,
}

/// The faces this build carries. Each face is an optional part of a
/// build; this one carries none, so nothing is drawn as an icon.
pub fn bundled_faces() -> (f: IconFaces)
    ensures
        f.thin is None && f.light is None && f.regular is None && f.bold is None && f.fill is None,
{
    IconFaces { thin: None, light: None, regular: None, bold: None, fill: None }
}

/// The data of exactly `face`, if it is available.
pub open spec fn exact_of(faces: IconFaces, face: IconFace) -> Option<&'static [u8]> {
    match face {
        IconFace::Thin => faces.thin,
        IconFace::Light => faces.light,
        IconFace::Regular => faces.regular,
        IconFace::Bold => faces.bold,
        IconFace::Fill => faces.fill,
    }
}

/// The faces tried, in order, when the one asked for is missing.
pub open spec fn fallback_order() -> Seq<IconFace> {
    seq![IconFace::Regular, IconFace::Bold, IconFace::Light, IconFace::Thin, IconFace::Fill]
}

/// The data of `face`, else of the first available face in fallback order.
pub open spec fn data_of(faces: IconFaces, face: IconFace) -> Option<&'static [u8]> {
    if exact_of(faces, face) is Some {
        exact_of(faces, face)
    } else if faces.regular is Some {
        faces.regular
    } else if faces.bold is Some {
        faces.bold
    } else if faces.light is Some {
        faces.light
    } else if faces.thin is Some {
        faces.thin
    } else {
        faces.fill
    }
}

/// Whether any face is available.
pub open spec fn any_face_of(faces: IconFaces) -> bool {
    exists|i: int| 0 <= i < 5 && #[trigger] exact_of(faces, fallback_order()[i]) is Some
}

/// Whether `c` is in the Private Use Area.
pub open spec fn in_private_use_area(c: char) -> bool {
    PUA_START <= (c as u32) && (c as u32) <= PUA_END
}

impl IconFace {
    /// The data of exactly this face among `faces`.
    fn exact(self, faces: &IconFaces) -> (r: Option<&'static [u8]>)
        ensures
            r == exact_of(*faces, self),
    {
        match self {
            IconFace::Thin => faces.thin,
            IconFace::Light => faces.light,
            IconFace::Regular => faces.regular,
            IconFace::Bold => faces.bold,
            IconFace::Fill => faces.fill,
        }
    }

    /// The data that draws this face among `faces`: its own, else the first
    /// available in the order regular, bold, light, thin, fill.
    pub fn data_in(self, faces: &IconFaces) -> (r: Option<&'static [u8]>)
        ensures
            r == data_of(*faces, self),
    {
        match self.exact(faces) {
            Some(d) => Some(d),
            None => {
                let order = [
                    IconFace::Regular,
                    IconFace::Bold,
                    IconFace::Light,
                    IconFace::Thin,
                    IconFace::Fill,
                ];
                let mut i: usize = 0;
                while i < 5
                    invariant
                        i <= 5,
                        order@ == fallback_order(),
                        exact_of(*faces, self) is None,
                        forall|j: int| 0 <= j < i ==> exact_of(*faces, #[trigger] order@[j]) is None,
                    decreases 5 - i,
                {
                    match order[i].exact(faces) {
                        Some(d) => {
                            return Some(d);
                        },
                        None => {},
                    }
                    i = i + 1;
                }
                proof {
                    assert(exact_of(*faces, order@[4]) is None);
                }
                None
            },
        }
    }

    /// The data that draws this face in this build.
    pub fn data(self) -> (r: Option<&'static [u8]>)
        ensures
            r == data_of(bundled_faces_spec(), self),
    {
        self.data_in(&bundled_faces())
    }
}

/// The faces this build carries, as a value.
pub open spec fn bundled_faces_spec() -> IconFaces {
    IconFaces { thin: None, light: None, regular: None, bold: None, fill: None }
}

/// Whether any face of the icon font is available among `faces`.
pub fn any_face_available(faces: &IconFaces) -> (any: bool)
    ensures
        any == any_face_of(*faces),
{
    let any = faces.thin.is_some() || faces.light.is_some() || faces.regular.is_some()
        || faces.bold.is_some() || faces.fill.is_some();
    proof {
        if any {
            if faces.regular is Some {
                assert(exact_of(*faces, fallback_order()[0]) is Some);
            } else if faces.bold is Some {
                assert(exact_of(*faces, fallback_order()[1]) is Some);
            } else if faces.light is Some {
                assert(exact_of(*faces, fallback_order()[2]) is Some);
            } else if faces.thin is Some {
                assert(exact_of(*faces, fallback_order()[3]) is Some);
            } else {
                assert(exact_of(*faces, fallback_order()[4]) is Some);
            }
        } else {
            assert forall|i: int| 0 <= i < 5 implies #[trigger] exact_of(*faces, fallback_order()[i]) is None by {}
        }
    }
    any
}

/// Whether `c` is drawn with the icon font given the available `faces`:
/// it is in the Private Use Area and some face is available.
pub fn is_icon_in(c: char, faces: &IconFaces) -> (b: bool)
    ensures
        b == (in_private_use_area(c) && any_face_of(*faces)),
{
    let cp = c as u32;
    PUA_START <= cp && cp <= PUA_END && any_face_available(faces)
}

/// Whether `c` is drawn with the icon font in this build.
pub fn is_icon(c: char) -> (b: bool)
    ensures
        b == (in_private_use_area(c) && any_face_of(bundled_faces_spec())),
{
    is_icon_in(c, &bundled_faces())
}

/// Nothing outside the Private Use Area is ever an icon, whatever faces
/// are available; ASCII in particular is always text.
pub proof fn law_only_private_use_is_icon(c: char, faces: IconFaces)
    ensures
        !in_private_use_area(c) ==> !(in_private_use_area(c) && any_face_of(faces)),
        (c as u32) < 128 ==> !(in_private_use_area(c) && any_face_of(faces)),
{
}

/// When any face is available, every face resolves to some data.
pub proof fn law_every_face_resolves(faces: IconFaces, face: IconFace)
    requires
        any_face_of(faces),
    ensures
        data_of(faces, face) is Some,
{
    let i = choose|i: int| 0 <= i < 5 && #[trigger] exact_of(faces, fallback_order()[i]) is Some;
    assert(exact_of(faces, fallback_order()[i]) is Some);
}

} // verus!
