//! Responsive layout: size tiers, the minimum-size guard, and the rectangle of
//! a centered popup.

use vstd::prelude::*;

verus! {

/// An area of the terminal, in cells.
#[derive(Debug, Clone, Copy, PartialEq, Eq, Structural)]
pub struct Rect {
    pub x: u16,
    pub y: u16,
    pub width: u16,
    pub height: u16,
}

/// Width tier: W1 from 110 cells, W2 from 80, W3 from 60, W4 below.
#[derive(Debug, Clone, Copy, PartialEq, Eq, Structural)]
pub enum WidthTier {
    W1,
    W2,
    W3,
    W4,
}

/// Height tier: H1 from 30 cells, H2 from 20, H3 from 15, H4 below.
#[derive(Debug, Clone, Copy, PartialEq, Eq, Structural)]
pub enum HeightTier {
    H1,
    H2,
    H3,
    H4,
}

/// The width and height tiers of a draw area.
#[derive(Debug, Clone, Copy, PartialEq, Eq, Structural)]
pub struct Breakpoints {
    pub w: WidthTier,
    pub h: HeightTier,
}

/// The tier of a width.
pub open spec fn width_tier(width: u16) -> WidthTier {
    if width >= 110 {
        WidthTier::W1
    } else if width >= 80 {
        WidthTier::W2
    } else if width >= 60 {
        WidthTier::W3
    } else {
        WidthTier::W4
    }
}

/// The tier of a height.
pub open spec fn height_tier(height: u16) -> HeightTier {
    if height >= 30 {
        HeightTier::H1
    } else if height >= 20 {
        HeightTier::H2
    } else if height >= 15 {
        HeightTier::H3
    } else {
        HeightTier::H4
    }
}

impl Breakpoints {
    /// The tiers of `area`.
    pub fn of(area: Rect) -> (r: Self)
        ensures
            r.w == width_tier(area.width),
            r.h == height_tier(area.height),
    {
        let w = if area.width >= 110 {
            WidthTier::W1
        } else if area.width >= 80 {
            WidthTier::W2
        } else if area.width >= 60 {
            WidthTier::W3
        } else {
            WidthTier::W4
        };
        let h = if area.height >= 30 {
            HeightTier::H1
        } else if area.height >= 20 {
            HeightTier::H2
        } else if area.height >= 15 {
            HeightTier::H3
        } else {
            HeightTier::H4
        };
        Breakpoints { w, h }
    }
}

/// Smallest usable terminal width.
pub const MIN_W: u16 = 40;

/// Smallest usable terminal height.
pub const MIN_H: u16 = 10;

/// Whether the area is too small for the normal screens.
pub fn too_small(area: Rect) -> (r: bool)
    ensures
        r == (area.width < MIN_W || area.height < MIN_H),
{
    area.width < MIN_W || area.height < MIN_H
}

/// A length of `desired` cells held between one and what `room` leaves beside a
/// margin of one cell on both sides.
pub open spec fn popup_length(desired: u16, room: u16) -> int {
    let most = if room >= 3 {
        room - 2
    } else {
        1
    };
    if desired < 1 {
        1
    } else if desired > most {
        most
    } else {
        desired as int
    }
}

/// Where a stretch of `length` cells begins when it is centered in `room` cells
/// from `at` on.
pub open spec fn centered_at(at: u16, room: u16, length: int) -> int {
    at + (if room > length {
        room - length
    } else {
        0
    }) / 2
}

/// A value held below the largest coordinate.
pub open spec fn in_cells(n: int) -> int {
    if n > u16::MAX {
        u16::MAX as int
    } else {
        n
    }
}

/// The rectangle of a popup of the desired size, centered in `area`.
pub open spec fn popup_of(desired_w: u16, desired_h: u16, area: Rect) -> Rect {
    let w = popup_length(desired_w, area.width);
    let h = popup_length(desired_h, area.height);
    let x = in_cells(centered_at(area.x, area.width, w));
    let y = in_cells(centered_at(area.y, area.height, h));
    Rect {
        x: x as u16,
        y: y as u16,
        width: (if x + w > u16::MAX {
            u16::MAX - x
        } else {
            w
        }) as u16,
        height: (if y + h > u16::MAX {
            u16::MAX - y
        } else {
            h
        }) as u16,
    }
}

fn popup_len(desired: u16, room: u16) -> (r: u16)
    ensures
        r == popup_length(desired, room),
{
    let most: u16 = if room >= 3 {
        room - 2
    } else {
        1
    };
    if desired < 1 {
        1
    } else if desired > most {
        most
    } else {
        desired
    }
}

/// A centered rectangle of the desired size, clamped to leave at least a
/// one-cell margin on every side. All arithmetic saturates.
pub fn popup_rect(desired_w: u16, desired_h: u16, area: Rect) -> (r: Rect)
    ensures
        r == popup_of(desired_w, desired_h, area),
{
    let w: u16 = popup_len(desired_w, area.width);
    let h: u16 = popup_len(desired_h, area.height);
    let x: u16 = area.x.saturating_add(area.width.saturating_sub(w) / 2);
    let y: u16 = area.y.saturating_add(area.height.saturating_sub(h) / 2);
    let room_w: u16 = u16::MAX - x;
    let room_h: u16 = u16::MAX - y;
    Rect {
        x,
        y,
        width: if w > room_w {
            room_w
        } else {
            w
        },
        height: if h > room_h {
            room_h
        } else {
            h
        },
    }
}

/// A popup keeps a margin of one cell to every side of an area that has the
/// room, is as large as was asked for where that fits, and stands in the middle.
pub proof fn popup_keeps_its_margin(desired_w: u16, desired_h: u16, area: Rect)
    requires
        area.width >= 3,
        area.height >= 3,
        area.x + area.width <= u16::MAX,
        area.y + area.height <= u16::MAX,
    ensures
        ({
            let p = popup_of(desired_w, desired_h, area);
            &&& area.x + 1 <= p.x && p.x + p.width <= area.x + area.width - 1
            &&& area.y + 1 <= p.y && p.y + p.height <= area.y + area.height - 1
            &&& p.width >= 1 && p.height >= 1
            &&& 1 <= desired_w <= area.width - 2 ==> p.width == desired_w
            &&& 1 <= desired_h <= area.height - 2 ==> p.height == desired_h
            &&& 0 <= (area.x + area.width - p.x - p.width) - (p.x - area.x) <= 1
            &&& 0 <= (area.y + area.height - p.y - p.height) - (p.y - area.y) <= 1
        }),
{
}

} // verus!
