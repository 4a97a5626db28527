//! Popup placement: the centered sub-rectangle a popup overlay occupies,
//! as a pure function of the enclosing rectangle and two percentages.

use crate::rect::Rect;
use vstd::prelude::*;

verus! {

/// The rectangle holding `width_percentage` of the width and
/// `height_percentage` of the height of `area`, centered inside it.
pub fn centered_frame(area: &Rect, width_percentage: u16, height_percentage: u16) -> (r: Rect)
    requires
        width_percentage <= 100,
        height_percentage <= 100,
        area.x + area.width <= u16::MAX,
        area.y + area.height <= u16::MAX,
    ensures
        r.width == area.width * width_percentage / 100,
        r.height == area.height * height_percentage / 100,
        r.x == area.x + (area.width - r.width) / 2,
        r.y == area.y + (area.height - r.height) / 2,
        r.width <= area.width,
        r.height <= area.height,
{
    proof {
        assert(area.width * width_percentage <= area.width * 100) by (nonlinear_arith)
            requires
                width_percentage <= 100,
                area.width >= 0,
        ;
        assert(area.height * height_percentage <= area.height * 100) by (nonlinear_arith)
            requires
                height_percentage <= 100,
                area.height >= 0,
        ;
        vstd::arithmetic::div_mod::lemma_div_is_ordered(
            area.width * width_percentage,
            area.width * 100,
            100,
        );
        vstd::arithmetic::div_mod::lemma_div_is_ordered(
            area.height * height_percentage,
            area.height * 100,
            100,
        );
        assert(area.width * 100 / 100 == area.width) by {
            vstd::arithmetic::div_mod::lemma_fundamental_div_mod_converse(
                area.width * 100,
                100,
                area.width as int,
                0,
            );
        }
        assert(area.height * 100 / 100 == area.height) by {
            vstd::arithmetic::div_mod::lemma_fundamental_div_mod_converse(
                area.height * 100,
                100,
                area.height as int,
                0,
            );
        }
    }
    let w = (area.width as u32 * width_percentage as u32 / 100) as u16;
    let h = (area.height as u32 * height_percentage as u32 / 100) as u16;
    Rect { x: area.x + (area.width - w) / 2, y: area.y + (area.height - h) / 2, width: w, height: h }
}

} // verus!
