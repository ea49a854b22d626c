//! What a window is made with, and how the state of a platform window is
//! read: which bounds it reports and which appearance it has.

use crate::display::DisplayId;
use vstd::prelude::*;

verus! {

/// What the platform hands over when it creates a window: the executor on
/// which the window's callbacks run.
pub struct WinitWindowCreationInfo<E> {
    pub executor: E,
}

/// What the caller asks of a new window.
#[derive(Clone, Copy, Debug, PartialEq, Eq, Structural)]
pub struct WinitWindowParams {
    display_id: Option<DisplayId>,
}

impl WinitWindowParams {
    /// Parameters for a window on the given display, or on the display that
    /// the platform picks when `display_id` is `None`.
    pub fn new(display_id: Option<DisplayId>) -> (r: Self)
        ensures
            r.spec_display_id() == display_id,
    {
        WinitWindowParams { display_id }
    }

    pub closed spec fn spec_display_id(&self) -> Option<DisplayId> {
        self.display_id
    }

    /// The display on which the window is wanted.
    #[verifier::when_used_as_spec(spec_display_id)]
    pub fn display_id(&self) -> (r: Option<DisplayId>)
        ensures
            r == self.spec_display_id(),
    {
        self.display_id
    }
}

/// The bounds of a window together with the state in which it has them.
#[derive(Clone, Copy, Debug, PartialEq, Eq)]
pub enum WindowBounds<B> {
    Windowed(B),
    Maximized(B),
    Fullscreen(B),
}

/// The bounds that a window reports: full screen wins over maximized, and a
/// window that is neither is windowed.
pub fn window_bounds<B>(bounds: B, fullscreen: bool, maximized: bool) -> (r: WindowBounds<B>)
    ensures
        r == if fullscreen {
            WindowBounds::Fullscreen(bounds)
        } else if maximized {
            WindowBounds::Maximized(bounds)
        } else {
            WindowBounds::Windowed(bounds)
        },
{
    if fullscreen {
        return WindowBounds::Fullscreen(bounds);
    }
    if maximized {
        return WindowBounds::Maximized(bounds);
    }
    WindowBounds::Windowed(bounds)
}

/// The theme that the platform reports for a window.
#[derive(Clone, Copy, Debug, PartialEq, Eq, Structural)]
pub enum WindowTheme {
    Light,
    Dark,
}

/// How a window looks.
#[derive(Clone, Copy, Debug, PartialEq, Eq, Structural)]
pub enum WindowAppearance {
    Light,
    VibrantLight,
    Dark,
    VibrantDark,
}

impl WindowAppearance {
    /// The appearance of a window of which nothing else is known.
    pub open spec fn spec_fallback() -> WindowAppearance {
        WindowAppearance::Light
    }

    #[verifier::when_used_as_spec(spec_fallback)]
    pub fn fallback() -> (r: WindowAppearance)
        ensures
            r == Self::spec_fallback(),
    {
        WindowAppearance::Light
    }
}

/// The appearance of a window with the given theme: light for a light
/// theme, dark for a dark one, and the fallback where the platform reports
/// no theme.
pub fn appearance(theme: Option<WindowTheme>) -> (r: WindowAppearance)
    ensures
        r == match theme {
            Some(WindowTheme::Light) => WindowAppearance::Light,
            Some(WindowTheme::Dark) => WindowAppearance::Dark,
            None => WindowAppearance::fallback(),
        },
{
    match theme {
        Some(WindowTheme::Light) => WindowAppearance::Light,
        Some(WindowTheme::Dark) => WindowAppearance::Dark,
        None => WindowAppearance::fallback(),
    }
}

} // verus!
