//! The frame loop's decisions: what a frame draws, and how the Y and M keys
//! switch between the 3D view, the 2D view and the minimap.

use vstd::prelude::*;

verus! {

/// Which views are on.
#[derive(Clone, Copy, Debug, PartialEq, Eq, Structural)]
pub struct ViewState {
    pub view_3d: bool,
    pub show_minimap: bool,
}

/// What one frame draws.
#[derive(Clone, Copy, Debug, PartialEq, Eq, Structural)]
pub enum FrameAction {
    /// The success screen, after which the game ends.
    ShowSuccess,
    /// The 3D view, with the minimap over it or not.
    Render3d { minimap: bool },
    /// The maze from above.
    Render2d,
}

/// The pause after a view key is taken, in milliseconds, so that one press
/// switches once.
pub const TOGGLE_PAUSE_MS: u64 = 200;

/// The views at the start: 3D, without the minimap.
pub fn initial_views() -> (v: ViewState)
    ensures
        v == (ViewState { view_3d: true, show_minimap: false }),
{
    ViewState { view_3d: true, show_minimap: false }
}

/// What a frame draws: the success screen once the exit is reached,
/// otherwise the 3D view (with the minimap when it is on) or the 2D view.
pub fn frame_action(state: ViewState, success: bool) -> (a: FrameAction)
    ensures
        a == (if success {
            FrameAction::ShowSuccess
        } else if state.view_3d {
            FrameAction::Render3d { minimap: state.show_minimap }
        } else {
            FrameAction::Render2d
        }),
{
    if success {
        FrameAction::ShowSuccess
    } else if state.view_3d {
        FrameAction::Render3d { minimap: state.show_minimap }
    } else {
        FrameAction::Render2d
    }
}

/// The views after a frame in which Y (`y_down`) and M (`m_down`) are read.
pub open spec fn toggled(state: ViewState, y_down: bool, m_down: bool) -> ViewState {
    ViewState { view_3d: state.view_3d != y_down, show_minimap: state.show_minimap != m_down }
}

/// After a frame: Y switches between the 3D and the 2D view, M turns the
/// minimap on or off; each key taken adds a pause of `TOGGLE_PAUSE_MS`.
/// Returns the new views and the total pause in milliseconds.
pub fn toggle_views(state: ViewState, y_down: bool, m_down: bool) -> (r: (ViewState, u64))
    ensures
        r.0 == toggled(state, y_down, m_down),
        r.1 == (if y_down { TOGGLE_PAUSE_MS } else { 0 }) + (if m_down { TOGGLE_PAUSE_MS } else { 0 }),
{
    let mut next = state;
    let mut pause: u64 = 0;
    if y_down {
        next.view_3d = !next.view_3d;
        pause = pause + TOGGLE_PAUSE_MS;
    }
    if m_down {
        next.show_minimap = !next.show_minimap;
        pause = pause + TOGGLE_PAUSE_MS;
    }
    (next, pause)
}

/// Y flips the view and only the view, M flips the minimap and only the
/// minimap, whatever the other key and the current views are; each key
/// pressed adds one pause.
pub proof fn lemma_view_keys(state: ViewState, y_down: bool, m_down: bool)
    ensures
        toggled(state, y_down, m_down).view_3d == (if y_down { !state.view_3d } else { state.view_3d }),
        toggled(state, y_down, m_down).show_minimap == (if m_down { !state.show_minimap } else {
            state.show_minimap
        }),
        !y_down && !m_down ==> toggled(state, y_down, m_down) == state,
{
}

/// Holding the same keys for two frames switches back: the views are as
/// before.
pub proof fn lemma_toggle_twice(state: ViewState, y_down: bool, m_down: bool)
    ensures
        toggled(toggled(state, y_down, m_down), y_down, m_down) == state,
{
}

} // verus!
