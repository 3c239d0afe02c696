//! The text demo's own state (which font is shown, whether the left mouse
//! button is held) and what to do with each frame the surface hands out.

use vstd::prelude::*;

verus! {

/// Which of the demo's two fonts is shown.
#[derive(Clone, Copy, Debug, PartialEq, Eq, Structural)]
pub enum FontChoice {
    Sans,
    Medieval,
}

/// The font index after cycling once: the next index, back to `0` once it
/// reaches the number of fonts, two.
pub open spec fn next_font_index(i: u32) -> u32 {
    if i + 1 >= 2 {
        0
    } else {
        (i + 1) as u32
    }
}

/// The font shown for a font index: index `0` is the sans font, any other
/// the medieval one.
pub open spec fn font_for_index(i: u32) -> FontChoice {
    if i == 0 {
        FontChoice::Sans
    } else {
        FontChoice::Medieval
    }
}

/// The demo's input and font-selection state.
pub struct TextDemoState {
    font_index: u32,
    lmb_pressed: bool,
}

impl View for TextDemoState {
    type V = (u32, bool);

    closed spec fn view(&self) -> (u32, bool) {
        (self.font_index, self.lmb_pressed)
    }
}

impl TextDemoState {
    #[verifier::type_invariant]
    spec fn font_index_in_range(self) -> bool {
        self.font_index < 2
    }

    /// The state at start-up: the sans font, no button held.
    pub fn new() -> (s: Self)
        ensures
            s@ == (0u32, false),
    {
        TextDemoState { font_index: 0, lmb_pressed: false }
    }

    /// Index of the font shown; always `0` or `1`.
    pub fn font_index(&self) -> (i: u32)
        ensures
            i == self@.0,
            i < 2,
    {
        proof {
            use_type_invariant(self);
        }
        self.font_index
    }

    /// Whether the left mouse button is held.
    pub fn lmb_pressed(&self) -> (b: bool)
        ensures
            b == self@.1,
    {
        self.lmb_pressed
    }

    /// The font to draw with.
    pub fn current_font(&self) -> (f: FontChoice)
        ensures
            f == font_for_index(self@.0),
    {
        match self.font_index {
            0 => FontChoice::Sans,
            _ => FontChoice::Medieval,
        }
    }

    /// Switches to the next font, wrapping around after the last one.
    pub fn cycle_font(&mut self)
        ensures
            final(self)@.0 == next_font_index(old(self)@.0),
            final(self)@.1 == old(self)@.1,
            final(self)@.0 < 2,
    {
        proof {
            use_type_invariant(&*self);
        }
        let next = self.font_index + 1;
        if next >= 2 {
            self.font_index = 0;
        } else {
            self.font_index = next;
        }
    }

    /// Records a mouse button change: the left button (number `0`) sets
    /// whether it is held; other buttons change nothing.
    pub fn handle_mouse_button(&mut self, button: u32, pressed: bool)
        ensures
            final(self)@.0 == old(self)@.0,
            final(self)@.1 == (if button == 0 {
                pressed
            } else {
                old(self)@.1
            }),
    {
        proof {
            use_type_invariant(&*self);
        }
        if button == 0 {
            self.lmb_pressed = pressed;
        }
    }
}

/// Font law: cycling the font twice shows the same font again, and cycling
/// once always changes the font shown.
pub proof fn lemma_cycle_font_period_two(i: u32)
    requires
        i < 2,
    ensures
        next_font_index(next_font_index(i)) == i,
        font_for_index(next_font_index(i)) != font_for_index(i),
        next_font_index(i) < 2,
{
}

/// What the surface gave when asked for the next frame's texture.
#[derive(Clone, Copy, Debug, PartialEq, Eq, Structural)]
pub enum SurfaceStatus {
    Success,
    Suboptimal,
    Timeout,
    Occluded,
    Outdated,
    Lost,
    Validation,
}

/// What to do with a frame.
#[derive(Clone, Copy, Debug, PartialEq, Eq, Structural)]
pub enum FrameAction {
    /// Draw the frame into the texture.
    Draw,
    /// Configure the surface again, then draw the frame into the texture.
    ReconfigureThenDraw,
    /// Draw nothing this frame.
    Skip,
    /// Configure the surface again and draw nothing this frame.
    ReconfigureThenSkip,
    /// The surface is gone; the demo cannot go on.
    SurfaceLost,
}

/// The frame decision: draw when a texture came (after reconfiguring when it
/// no longer matches the surface), reconfigure and skip when the
/// configuration is outdated, give up when the surface is lost, and skip the
/// frame otherwise.
pub fn frame_action(status: SurfaceStatus) -> (a: FrameAction)
    ensures
        status == SurfaceStatus::Success ==> a == FrameAction::Draw,
        status == SurfaceStatus::Suboptimal ==> a == FrameAction::ReconfigureThenDraw,
        status == SurfaceStatus::Timeout ==> a == FrameAction::Skip,
        status == SurfaceStatus::Occluded ==> a == FrameAction::Skip,
        status == SurfaceStatus::Validation ==> a == FrameAction::Skip,
        status == SurfaceStatus::Outdated ==> a == FrameAction::ReconfigureThenSkip,
        status == SurfaceStatus::Lost ==> a == FrameAction::SurfaceLost,
{
    match status {
        SurfaceStatus::Success => FrameAction::Draw,
        SurfaceStatus::Suboptimal => FrameAction::ReconfigureThenDraw,
        SurfaceStatus::Timeout | SurfaceStatus::Occluded | SurfaceStatus::Validation => FrameAction::Skip,
        SurfaceStatus::Outdated => FrameAction::ReconfigureThenSkip,
        SurfaceStatus::Lost => FrameAction::SurfaceLost,
    }
}

} // verus!
