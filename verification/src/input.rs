//! Pointer and viewport decisions: which way a click pulse pushes, whether a
//! button is being held, how many cells the grid has, and when the GL
//! viewport must follow a change of the grid.

use vstd::prelude::*;

verus! {

/// A button event on the canvas.
pub enum ButtonEvent {
    /// A button went down; `secondary` is the right button.
    Down { secondary: bool },
    /// The button went up.
    Up,
    /// The pointer left the canvas.
    Leave,
}

/// The sign of a pulse: `-1` (a void pulse) for the right button, `1` for
/// any other.
pub open spec fn sign_of(secondary: bool) -> i8 {
    if secondary {
        -1i8
    } else {
        1i8
    }
}

/// The sign of the pulse that a press of the given button spawns.
pub fn pulse_sign(secondary: bool) -> (sign: i8)
    ensures
        sign == sign_of(secondary),
{
    if secondary {
        -1
    } else {
        1
    }
}

/// The button held after `event`: the sign of the pressed button after a
/// press, nothing after a release or after the pointer leaves the canvas.
pub fn held_after(event: ButtonEvent) -> (held: Option<i8>)
    ensures
        match event {
            ButtonEvent::Down { secondary } => held == Some(sign_of(secondary)),
            ButtonEvent::Up => held is None,
            ButtonEvent::Leave => held is None,
        },
{
    match event {
        ButtonEvent::Down { secondary } => Some(pulse_sign(secondary)),
        ButtonEvent::Up => None,
        ButtonEvent::Leave => None,
    }
}

/// The grid size for `cols` whole cells across and `rows` down the viewport:
/// at least one cell each way.
pub fn grid_dims(cols: usize, rows: usize) -> (dims: (usize, usize))
    ensures
        dims.0 == if cols == 0 { 1 } else { cols },
        dims.1 == if rows == 0 { 1 } else { rows },
{
    (if cols == 0 { 1 } else { cols }, if rows == 0 { 1 } else { rows })
}

/// Records `dims` as the grid the viewport was last set for, and says whether
/// it differs from the one recorded before (so that the viewport must be set
/// again).
pub fn viewport_stale(last: &mut (usize, usize), dims: (usize, usize)) -> (stale: bool)
    ensures
        stale == (old(last).0 != dims.0 || old(last).1 != dims.1),
        *final(last) == dims,
{
    let stale = last.0 != dims.0 || last.1 != dims.1;
    *last = dims;
    stale
}

} // verus!
