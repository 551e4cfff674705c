//! Window state.

use vstd::prelude::*;

use crate::geometry::{GeoPoint, Size};
use crate::ui::view::search::SearchViewState;
use crate::ui::view::{View as UiView, Views};

verus! {

/// Change of the text input state.
#[derive(Copy, Clone, Debug, PartialEq, Eq, Structural)]
pub enum TextInputUpdate {
    /// Keep the current state.
    Keep,
    /// Disable text input, if it is enabled.
    Disable,
    /// Enable text input, if it is disabled, and update its content.
    Enable,
}

/// Redraw tracking.
#[derive(Copy, Clone, Debug, PartialEq, Eq, Structural)]
pub struct Window {
    /// Logical size.
    pub size: Size,
    pub initial_draw_done: bool,
    pub text_input_dirty: bool,
    pub stalled: bool,
    pub dirty: bool,
}

impl Window {
    /// Create a window with a reasonable default size.
    pub fn new() -> (window: Self)
        ensures
            window == (Window {
                size: Size { width: 360, height: 720 },
                initial_draw_done: false,
                text_input_dirty: false,
                stalled: true,
                dirty: true,
            }),
    {
        Window {
            size: Size::new(360, 720),
            initial_draw_done: false,
            text_input_dirty: false,
            stalled: true,
            dirty: true,
        }
    }

    /// Window after a frame was requested.
    pub open spec fn drawn(self, view_dirty: bool) -> Self {
        if self.dirty || view_dirty {
            Window { initial_draw_done: true, dirty: false, ..self }
        } else {
            Window { stalled: true, ..self }
        }
    }

    /// Redraw the window.
    ///
    /// Returns whether a frame must be rendered. Rendering is stalled if nothing
    /// changed since last redraw.
    pub fn draw(&mut self, view_dirty: bool) -> (render: bool)
        ensures
            render == (old(self).dirty || view_dirty),
            *final(self) == old(self).drawn(view_dirty),
    {
        if !self.dirty && !view_dirty {
            self.stalled = true;
            return false;
        }
        self.initial_draw_done = true;
        self.dirty = false;
        true
    }

    /// Perform draw for the initial commit.
    pub fn perform_initial_draw(&mut self, view_dirty: bool) -> (render: bool)
        ensures
            render == (!old(self).initial_draw_done && (old(self).dirty || view_dirty)),
            *final(self) == (if old(self).initial_draw_done {
                *old(self)
            } else {
                old(self).drawn(view_dirty)
            }),
    {
        if self.initial_draw_done {
            false
        } else {
            self.draw(view_dirty)
        }
    }

    /// Window after it was unstalled.
    pub open spec fn unstalled(self, view_dirty: bool) -> Self {
        if self.stalled {
            (Window { stalled: false, ..self }).drawn(view_dirty)
        } else {
            self
        }
    }

    /// Unstall the renderer.
    ///
    /// This will render a new frame if there currently is no frame request
    /// pending.
    pub fn unstall(&mut self, view_dirty: bool) -> (render: bool)
        ensures
            render == (old(self).stalled && (old(self).dirty || view_dirty)),
            *final(self) == old(self).unstalled(view_dirty),
    {
        if !self.stalled {
            return false;
        }
        self.stalled = false;
        self.draw(view_dirty)
    }

    /// Handle an event for the active view.
    ///
    /// Returns whether a frame must be rendered.
    pub fn handle_event(&mut self, view_dirty: bool) -> (render: bool)
        ensures
            render == (old(self).stalled && view_dirty),
            *final(self) == (if view_dirty {
                old(self).unstalled(true)
            } else {
                *old(self)
            }),
    {
        if view_dirty {
            self.unstall(true)
        } else {
            false
        }
    }

    /// Update the window's logical size.
    ///
    /// Returns whether the size has changed.
    pub fn set_size(&mut self, size: Size) -> (changed: bool)
        ensures
            changed == (old(self).size != size),
            *final(self) == (if changed {
                Window { size, dirty: true, ..*old(self) }
            } else {
                *old(self)
            }),
    {
        if self.size == size {
            return false;
        }
        self.size = size;
        self.dirty = true;
        true
    }

    /// Request a redraw of the entire window.
    pub fn set_dirty(&mut self)
        ensures
            *final(self) == (Window { dirty: true, ..*old(self) }),
    {
        self.dirty = true;
    }

    /// Switch to a different UI view.
    ///
    /// The search view's reference point will match the map's center point.
    ///
    /// Returns whether the view has changed.
    pub fn set_view(&mut self, views: &mut Views, view: UiView, map_center: GeoPoint) -> (changed: bool)
        requires
            old(views).well_formed(),
        ensures
            final(views).well_formed(),
            changed == (old(views).active_view != view),
            *final(self) == (if changed {
                Window { text_input_dirty: true, dirty: true, ..*old(self) }
            } else {
                *old(self)
            }),
            *final(views) == (Views {
                search: final(views).search,
                active_view: view,
                ..*old(views)
            }),
            final(views).search@ == (if changed && view == UiView::Search {
                SearchViewState {
                    reference_point: map_center,
                    reference_zoom: old(views).map@.cursor.tile.z,
                    ..old(views).search@.entered()
                }
            } else {
                old(views).search@
            }),
    {
        if views.active() == view {
            return false;
        }
        views.set_view(view);

        if view == UiView::Search {
            // Notify view about getting opened.
            views.search.enter();

            // Ensure search reference point matches last map view position.
            views.search.set_reference(map_center, views.map.zoom());
        }

        self.text_input_dirty = true;
        self.dirty = true;
        true
    }

    /// Get pending text input changes.
    pub fn update_text_input(&self, view_dirty: bool, has_text_input: bool, enabled: bool) -> (update:
        TextInputUpdate)
        ensures
            update == (if !(view_dirty || self.text_input_dirty) || !has_text_input {
                TextInputUpdate::Keep
            } else if enabled {
                TextInputUpdate::Enable
            } else {
                TextInputUpdate::Disable
            }),
    {
        if !view_dirty && !self.text_input_dirty || !has_text_input {
            TextInputUpdate::Keep
        } else if enabled {
            TextInputUpdate::Enable
        } else {
            TextInputUpdate::Disable
        }
    }
}

/// Text input with enabled-state tracking.
#[derive(Copy, Clone, Debug, PartialEq, Eq, Structural)]
pub struct TextInput {
    pub enabled: bool,
}

impl TextInput {
    pub fn new() -> (input: Self)
        ensures
            !input.enabled,
    {
        TextInput { enabled: false }
    }

    /// Enable text input on a surface.
    ///
    /// Returns whether the text input was disabled.
    pub fn enable(&mut self) -> (changed: bool)
        ensures
            changed == !old(self).enabled,
            final(self).enabled,
    {
        if self.enabled {
            return false;
        }
        self.enabled = true;
        true
    }

    /// Disable text input on a surface.
    ///
    /// Returns whether the text input was enabled.
    pub fn disable(&mut self) -> (changed: bool)
        ensures
            changed == old(self).enabled,
            !final(self).enabled,
    {
        if !self.enabled {
            return false;
        }
        self.enabled = false;
        true
    }
}

/// A changed view is always rendered, either immediately or with the pending
/// frame: after an event, the window is only stalled without any changes.
pub proof fn law_changes_are_rendered(window: Window, view_dirty: bool)
    ensures
        ({
            let after = window.unstalled(view_dirty);
            after.stalled ==> !after.dirty && !view_dirty
        }),
{
}

/// Drawing a changed window shows all of its changes, and without any changes
/// rendering is stalled until the next one.
pub proof fn law_drawn_window_is_clean(window: Window, view_dirty: bool)
    ensures
        ({
            let after = window.drawn(view_dirty);
            let changed = window.dirty || view_dirty;
            &&& !after.dirty
            &&& changed ==> after.initial_draw_done && after.stalled == window.stalled
            &&& !changed ==> after.stalled && after.initial_draw_done == window.initial_draw_done
            &&& after.size == window.size && after.text_input_dirty == window.text_input_dirty
        }),
        !window.stalled ==> window.unstalled(view_dirty) == window,
        window.stalled && (window.dirty || view_dirty) ==> !window.unstalled(view_dirty).stalled,
{
}

} // verus!
