//! What the library knows of the platform it is embedded in: the kinds of
//! handle that it carries for the embedding program, and the events that
//! the program reports.

use crate::input::KeyCode;
use vstd::prelude::*;

verus! {

/// The handles of the embedding program. The library stores and hands
/// them on; it never looks inside.
pub trait Platform {
    /// The native window and whatever else belongs to it.
    type Window;

    /// Device, queue and surface of the GPU.
    type Gpu;

    /// A GPU-backed resource of the shared registry.
    type Resource;

    /// The context that a state builds its user interface in.
    type Ui;
}

/// The phase of a touch.
#[derive(Clone, Copy, Debug, PartialEq, Eq)]
pub enum TouchPhase {
    Started,
    Moved,
    Ended,
    Cancelled,
}

/// An event of the platform, reduced to what the driver reads.
#[derive(Clone, Copy, Debug, PartialEq, Eq)]
pub enum Event {
    /// The platform starts to deliver a batch of events.
    NewEvents,
    /// The user asked to close the window.
    CloseRequested,
    /// The window is gone.
    Destroyed,
    /// The window has a new inner size, in physical pixels.
    Resized { width: u32, height: u32 },
    /// A key went down or came up. A synthetic event is one that the
    /// platform made up, for a key that was held when the window gained
    /// the focus.
    KeyboardInput { key: Option<KeyCode>, pressed: bool, synthetic: bool },
    /// A finger touched the window or moved on it.
    Touch { id: u64, x: i32, y: i32, phase: TouchPhase },
    /// Any other event of the window.
    Window,
    /// The application may draw again: its surface is there.
    Resumed,
    /// The application lost its surface.
    Suspended,
    /// The window has to be drawn.
    RedrawRequested,
    /// All events of the batch were delivered.
    MainEventsCleared,
    /// Anything else.
    Other,
}

impl Event {
    /// Whether the event belongs to the window. Such an event is shown to
    /// every state before the driver acts on it.
    pub open spec fn of_window(self) -> bool {
        self is CloseRequested || self is Destroyed || self is Resized || self is KeyboardInput
            || self is Touch || self is Window
    }

    /// Whether the event belongs to the window.
    pub fn is_window_event(&self) -> (r: bool)
        ensures
            r == self.of_window(),
    {
        match self {
            Event::CloseRequested => true,
            Event::Destroyed => true,
            Event::Resized { .. } => true,
            Event::KeyboardInput { .. } => true,
            Event::Touch { .. } => true,
            Event::Window => true,
            _ => false,
        }
    }
}

} // verus!
