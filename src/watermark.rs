//! Where a text watermark is anchored on an image.
use vstd::prelude::*;

verus! {

/// The corner, or the centre, of the image that a watermark is placed at.
#[derive(Debug, Clone, Copy, PartialEq, Eq, Structural)]
pub enum WatermarkPosition {
    TopLeft,
    TopRight,
    BottomLeft,
    BottomRight,
    Center,
}

/// The position that a position byte selects: 0 to 4 in the order of the
/// variants, any other byte the bottom-right corner.
pub open spec fn position_of_byte(value: u8) -> WatermarkPosition {
    if value == 0 {
        WatermarkPosition::TopLeft
    } else if value == 1 {
        WatermarkPosition::TopRight
    } else if value == 2 {
        WatermarkPosition::BottomLeft
    } else if value == 4 {
        WatermarkPosition::Center
    } else {
        WatermarkPosition::BottomRight
    }
}

impl From<u8> for WatermarkPosition {
    fn from(value: u8) -> (r: WatermarkPosition) {
        match value {
            0 => WatermarkPosition::TopLeft,
            1 => WatermarkPosition::TopRight,
            2 => WatermarkPosition::BottomLeft,
            3 => WatermarkPosition::BottomRight,
            4 => WatermarkPosition::Center,
            _ => WatermarkPosition::BottomRight,
        }
    }
}

impl vstd::std_specs::convert::FromSpecImpl<u8> for WatermarkPosition {
    open spec fn obeys_from_spec() -> bool {
        true
    }

    open spec fn from_spec(v: u8) -> WatermarkPosition {
        position_of_byte(v)
    }
}

/// The gap, in pixels, between a corner-anchored watermark and the image edges.
pub const PADDING: u32 = 20;

/// `a - b`, or 0 where `b` exceeds `a`.
pub open spec fn saturating_diff(a: int, b: int) -> int {
    if a > b {
        a - b
    } else {
        0
    }
}

/// The estimated width of a text of `len` bytes at `font_size`: three fifths
/// of `len * font_size`, rounded down, and at most `u32::MAX`.
pub open spec fn estimated_text_width(len: nat, font_size: u32) -> int {
    let w = (len * font_size * 3) / 5;
    if w > u32::MAX {
        u32::MAX as int
    } else {
        w
    }
}

/// The anchor `(x, y)` of a watermark `text_width` wide and `text_height` high
/// on an image of `img_width` by `img_height` pixels.
pub open spec fn anchor(
    position: WatermarkPosition,
    img_width: int,
    img_height: int,
    text_width: int,
    text_height: int,
) -> (int, int) {
    let pad = PADDING as int;
    let right = saturating_diff(img_width, text_width + pad);
    let bottom = saturating_diff(img_height, text_height + pad);
    match position {
        WatermarkPosition::TopLeft => (pad, pad),
        WatermarkPosition::TopRight => (right, pad),
        WatermarkPosition::BottomLeft => (pad, bottom),
        WatermarkPosition::BottomRight => (right, bottom),
        WatermarkPosition::Center => (
            saturating_diff(img_width / 2, text_width / 2),
            saturating_diff(img_height / 2, text_height / 2),
        ),
    }
}

/// Computes where the text is drawn. Its width is estimated from its length
/// in bytes (see `estimated_text_width`) and its height is the font size.
/// Corner placements keep `PADDING` pixels from the two edges of the corner,
/// and the centre placement centres the text's extent; a coordinate that would
/// fall below 0, on an image smaller than the text, is 0.
pub fn calculate_text_position(
    position: WatermarkPosition,
    img_width: u32,
    img_height: u32,
    text: &str,
    font_size: u32,
) -> (r: (u32, u32))
    ensures
        r.0 as int == anchor(
            position,
            img_width as int,
            img_height as int,
            estimated_text_width(text.len() as nat, font_size),
            font_size as int,
        ).0,
        r.1 as int == anchor(
            position,
            img_width as int,
            img_height as int,
            estimated_text_width(text.len() as nat, font_size),
            font_size as int,
        ).1,
{
    let len: u128 = text.len() as u128;
    let fs: u128 = font_size as u128;
    assert(len * fs <= 0x1_0000_0000_0000_0000 * 0x1_0000_0000) by (nonlinear_arith)
        requires
            len <= 0x1_0000_0000_0000_0000,
            fs <= 0x1_0000_0000,
    ;
    let estimate: u128 = len * fs * 3 / 5;
    let text_width: u32 = if estimate > u32::MAX as u128 {
        u32::MAX
    } else {
        estimate as u32
    };
    let text_height: u32 = font_size;
    let right: u32 = if (img_width as u64) > (text_width as u64) + (PADDING as u64) {
        img_width - text_width - PADDING
    } else {
        0
    };
    let bottom: u32 = if (img_height as u64) > (text_height as u64) + (PADDING as u64) {
        img_height - text_height - PADDING
    } else {
        0
    };
    match position {
        WatermarkPosition::TopLeft => (PADDING, PADDING),
        WatermarkPosition::TopRight => (right, PADDING),
        WatermarkPosition::BottomLeft => (PADDING, bottom),
        WatermarkPosition::BottomRight => (right, bottom),
        WatermarkPosition::Center => {
            let half_w = img_width / 2;
            let half_tw = text_width / 2;
            let half_h = img_height / 2;
            let half_th = text_height / 2;
            let x: u32 = if half_w > half_tw {
                half_w - half_tw
            } else {
                0
            };
            let y: u32 = if half_h > half_th {
                half_h - half_th
            } else {
                0
            };
            (x, y)
        },
    }
}

/// On an image no wider than the estimated text plus the padding, a watermark
/// anchored on the right starts at the left edge rather than before it; one
/// anchored at the bottom of an image no higher than the text plus the padding
/// starts at the top edge.
pub proof fn lemma_anchor_saturates(
    position: WatermarkPosition,
    img_width: int,
    img_height: int,
    text_width: int,
    text_height: int,
)
    requires
        0 <= img_width,
        0 <= img_height,
        0 <= text_width,
        0 <= text_height,
    ensures
        anchor(position, img_width, img_height, text_width, text_height).0 >= 0,
        anchor(position, img_width, img_height, text_width, text_height).1 >= 0,
        img_width <= text_width + PADDING && (position == WatermarkPosition::TopRight
            || position == WatermarkPosition::BottomRight) ==> anchor(
            position,
            img_width,
            img_height,
            text_width,
            text_height,
        ).0 == 0,
        img_height <= text_height + PADDING && (position == WatermarkPosition::BottomLeft
            || position == WatermarkPosition::BottomRight) ==> anchor(
            position,
            img_width,
            img_height,
            text_width,
            text_height,
        ).1 == 0,
{
}

} // verus!
