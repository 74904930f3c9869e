use vstd::prelude::*;

use crate::channel::send_on;
use crate::geometry::Region;

verus! {

/// Where a widget sits on the status bar.
#[derive(Clone, Copy, Debug, PartialEq, Eq, Structural)]
pub enum Align {
    Left,
    Center,
    Right,
}

impl Align {
    /// Where a widget of `width` pixels starts on a bar of `bar_width`
    /// pixels, `offset` pixels in from its side (from the middle for
    /// `Center`).
    pub fn x_offset(&self, offset: usize, bar_width: usize, width: usize) -> (r: usize)
        requires
            *self == Align::Center ==> width <= bar_width && (bar_width - width) / 2 + offset
                <= usize::MAX,
            *self == Align::Right ==> width + offset <= bar_width,
        ensures
            r == match *self {
                Align::Left => offset as int,
                Align::Center => (bar_width - width) / 2 + offset,
                Align::Right => bar_width - width - offset,
            },
    {
        match self {
            Align::Left => offset,
            Align::Center => (bar_width - width) / 2 + offset,
            Align::Right => bar_width - width - offset,
        }
    }
}

/// An edge of the screen for the status bar.
#[derive(Clone, Copy, Debug, PartialEq, Eq, Structural)]
pub enum BarPosition {
    Top,
    Bottom,
}

/// The bar's window on `screen`: the full width, `height` pixels high, at
/// the screen's top, or ending at the screen's height.
pub fn bar_region(screen: &Region, position: BarPosition, height: u32) -> (r: Region)
    requires
        height <= screen.h,
    ensures
        r.x == screen.x,
        r.w == screen.w,
        r.h == height,
        r.y == match position {
            BarPosition::Top => screen.y as int,
            BarPosition::Bottom => screen.h - height,
        },
{
    let y = match position {
        BarPosition::Top => screen.y,
        BarPosition::Bottom => screen.h - height,
    };
    Region { x: screen.x, y, w: screen.w, h: height }
}

/// What the window manager tells the status bar.
#[derive(Clone, Copy, Debug, PartialEq, Eq, Structural)]
pub enum StatusBarEvent {
    Startup,
    ScreensUpdated,
}

impl StatusBarEvent {
    /// Whether the bar must make its windows anew before it redraws; every
    /// event asks for a redraw.
    pub fn needs_new_windows(&self) -> (r: bool)
        ensures
            r == (*self == StatusBarEvent::ScreensUpdated),
    {
        match self {
            StatusBarEvent::Startup => false,
            StatusBarEvent::ScreensUpdated => true,
        }
    }
}

/// The window manager's end of the status bar's event channel.
pub struct StatusBarHook {
    sender: std::sync::mpsc::Sender<StatusBarEvent>,
}

impl StatusBarHook {
    pub fn new(sender: std::sync::mpsc::Sender<StatusBarEvent>) -> (r: StatusBarHook)
        ensures
            r.sender() == sender,
    {
        StatusBarHook { sender }
    }

    pub closed spec fn sender(&self) -> std::sync::mpsc::Sender<StatusBarEvent> {
        self.sender
    }

    /// Passes `event` on to the bar; `false` when the bar is gone.
    pub fn notify(&self, event: StatusBarEvent) -> bool {
        send_on(&self.sender, event)
    }
}

} // verus!
