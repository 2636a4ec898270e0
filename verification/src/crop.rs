//! The map from raw display coordinates into the cropped content.
//!
//! Cursor positions are recorded as fractions of the whole display, while the
//! framing works in fractions of the rendered content, which a project may
//! crop. A crop that covers the whole screen, or degenerate input, needs no
//! map. This module decides when a map applies and keeps the crop and screen
//! size it is built from; the fractional arithmetic of applying it is the
//! caller's.
use vstd::prelude::*;

verus! {

/// A crop of the recorded display, in physical pixels.
#[derive(Clone, Copy, Debug, PartialEq, Eq, Structural)]
pub struct Crop {
    pub position_x: u32,
    pub position_y: u32,
    pub size_x: u32,
    pub size_y: u32,
}

/// Nothing to map: the screen or the crop has no area, or the crop starts at
/// the origin and reaches at least the whole screen.
pub open spec fn crop_needs_no_map(crop: Crop, screen_x: u32, screen_y: u32) -> bool {
    ||| screen_x == 0
    ||| screen_y == 0
    ||| crop.size_x == 0
    ||| crop.size_y == 0
    ||| (crop.position_x == 0 && crop.position_y == 0 && crop.size_x >= screen_x && crop.size_y >= screen_y)
}

/// A crop that maps cursor coordinates into content coordinates.
#[derive(Clone, Copy, Debug)]
pub struct CursorCropMap {
    crop: Crop,
    screen_x: u32,
    screen_y: u32,
}

impl CursorCropMap {
    #[verifier::type_invariant]
    spec fn applies(self) -> bool {
        !crop_needs_no_map(self.crop, self.screen_x, self.screen_y)
    }

    /// The crop, in physical pixels.
    pub closed spec fn crop(self) -> Crop {
        self.crop
    }

    /// The recorded screen size, in physical pixels.
    pub closed spec fn screen(self) -> (u32, u32) {
        (self.screen_x, self.screen_y)
    }

    /// The map for `crop` of a screen of `screen_x` by `screen_y` pixels;
    /// `None` when no map is needed.
    pub fn from_crop(crop: &Crop, screen_x: u32, screen_y: u32) -> (r: Option<Self>)
        ensures
            (r is None) <==> crop_needs_no_map(*crop, screen_x, screen_y),
            r matches Some(m) ==> m.crop() == *crop && m.screen() == (screen_x, screen_y),
            (screen_x > 0 && screen_y > 0 && crop.size_x > 0 && crop.size_y > 0 && (crop.size_x < screen_x
                || crop.size_y < screen_y || crop.position_x != 0 || crop.position_y != 0)) ==> r is Some,
            (crop.position_x == 0 && crop.position_y == 0 && crop.size_x >= screen_x && crop.size_y >= screen_y)
                ==> r is None,
            (screen_x == 0 || screen_y == 0 || crop.size_x == 0 || crop.size_y == 0) ==> r is None,
    {
        if screen_x == 0 || screen_y == 0 || crop.size_x == 0 || crop.size_y == 0 {
            return None;
        }
        if crop.position_x == 0 && crop.position_y == 0 && crop.size_x >= screen_x && crop.size_y >= screen_y {
            return None;
        }
        Some(CursorCropMap { crop: *crop, screen_x, screen_y })
    }

    /// The crop, in physical pixels.
    pub fn crop_rect(&self) -> (r: Crop)
        ensures
            r == self.crop(),
    {
        self.crop
    }

    /// The recorded screen size, in physical pixels; both sides are positive.
    pub fn screen_size(&self) -> (r: (u32, u32))
        ensures
            r == self.screen(),
            r.0 > 0 && r.1 > 0,
            self.crop().size_x > 0 && self.crop().size_y > 0,
    {
        proof {
            use_type_invariant(self);
        }
        (self.screen_x, self.screen_y)
    }
}

/// A crop needs a map exactly when the screen and the crop have area and the
/// crop leaves part of the screen out: it is narrower or shorter than the
/// screen, or does not start at the origin.
pub proof fn crop_needs_map_when_it_leaves_part_of_the_screen_out(crop: Crop, screen_x: u32, screen_y: u32)
    ensures
        !crop_needs_no_map(crop, screen_x, screen_y) <==> (screen_x > 0 && screen_y > 0 && crop.size_x > 0
            && crop.size_y > 0 && (crop.size_x < screen_x || crop.size_y < screen_y || crop.position_x != 0
            || crop.position_y != 0)),
{
}

} // verus!
