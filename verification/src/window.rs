//! Decisions of the windowed application: when to open its window and start
//! its worker threads, and which window events end it.

use vstd::prelude::*;

verus! {

/// What to do when the event loop resumes.
#[derive(Clone, Copy, Debug, PartialEq, Eq, Structural)]
pub enum ResumeAction {
    /// Open the window, start the render, game and download threads, and
    /// keep the window.
    CreateWindow,
    /// The window exists already; nothing to do.
    KeepWindow,
}

/// On resume, the window is created (and the threads started) only when
/// there is none yet.
pub fn on_resumed(has_window: bool) -> (a: ResumeAction)
    ensures
        a == (if has_window {
            ResumeAction::KeepWindow
        } else {
            ResumeAction::CreateWindow
        }),
{
    if has_window {
        ResumeAction::KeepWindow
    } else {
        ResumeAction::CreateWindow
    }
}

/// The window events the application tells apart.
#[derive(Clone, Copy, Debug, PartialEq, Eq, Structural)]
pub enum WindowEventKind {
    CloseRequested,
    Other,
}

/// What to do with a window event.
#[derive(Clone, Copy, Debug, PartialEq, Eq, Structural)]
pub enum EventAction {
    /// Leave the event loop.
    Exit,
    /// Carry on.
    Ignore,
}

/// A close request ends the event loop; every other event is ignored.
pub fn on_window_event(event: WindowEventKind) -> (a: EventAction)
    ensures
        a == (if event == WindowEventKind::CloseRequested {
            EventAction::Exit
        } else {
            EventAction::Ignore
        }),
{
    match event {
        WindowEventKind::CloseRequested => EventAction::Exit,
        WindowEventKind::Other => EventAction::Ignore,
    }
}

} // verus!
