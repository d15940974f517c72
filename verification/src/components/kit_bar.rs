//! The tool bar: which tool is in hand, and how far the bar can be dragged.
use vstd::prelude::*;

verus! {

/// The tool in hand.
#[derive(Debug, Clone, Copy, PartialEq, Eq, Structural)]
pub enum UsingTool {
    Roll,
    Stack,
    Select,
    FormatBrush,
    Eyedropper,
    Delete,
}

/// The margin above the bar while it is dragged, and whether the drag goes
/// on. The bar follows the pointer, 55 below the top of the page, as long as
/// that leaves its margin from 10 to 400; beyond that it stays where it is
/// and the drag ends.
pub fn dragged_margin(page_y: i32, current: i32) -> (ans: (i32, bool))
    requires
        page_y >= i32::MIN + 55,
    ensures
        ans == (if 10 <= page_y - 55 <= 400 {
            ((page_y - 55) as i32, true)
        } else {
            (current, false)
        }),
{
    let new_margin = page_y - 55;
    if new_margin >= 10 && new_margin <= 400 {
        (new_margin, true)
    } else {
        (current, false)
    }
}

/// The style of the button of `tool`: lit where that tool is in hand.
pub fn tool_style(using: UsingTool, tool: UsingTool) -> (style: &'static str)
    ensures
        style@ == (if using == tool {
            "background-color: rgb(63, 68, 83);"@
        } else {
            ""@
        }),
{
    if using == tool {
        "background-color: rgb(63, 68, 83);"
    } else {
        ""
    }
}

} // verus!
