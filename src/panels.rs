//! Visibility of the viewer's side panel and about window.

use vstd::prelude::*;

verus! {

/// The side panel with a session's settings.
pub struct SessionSettingsPanel {
    is_visible: bool,
}

impl Default for SessionSettingsPanel {
    /// Hidden at first.
    fn default() -> (r: SessionSettingsPanel)
        ensures
            !r.visible(),
    {
        SessionSettingsPanel { is_visible: false }
    }
}

impl SessionSettingsPanel {
    pub closed spec fn visible(&self) -> bool {
        self.is_visible
    }

    /// Shows the panel when hidden, hides it when shown.
    pub fn toggle_is_visible(&mut self)
        ensures
            final(self).visible() == !old(self).visible(),
    {
        self.is_visible = !self.is_visible;
    }

    pub fn get_is_visible(&self) -> (r: bool)
        ensures
            r == self.visible(),
    {
        self.is_visible
    }
}

/// The window that tells what the program is.
pub struct AboutWindow {
    is_visible: bool,
}

impl Default for AboutWindow {
    /// Hidden at first.
    fn default() -> (r: AboutWindow)
        ensures
            !r.visible(),
    {
        AboutWindow { is_visible: false }
    }
}

impl AboutWindow {
    pub closed spec fn visible(&self) -> bool {
        self.is_visible
    }

    pub fn get_is_visible(&self) -> (r: bool)
        ensures
            r == self.visible(),
    {
        self.is_visible
    }

    /// Shows the window when hidden, hides it when shown.
    pub fn toggle_is_visible(&mut self)
        ensures
            final(self).visible() == !old(self).visible(),
    {
        self.is_visible = !self.is_visible;
    }
}

} // verus!
