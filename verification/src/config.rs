//! How the window of the editor is opened.

use vstd::prelude::*;

verus! {

/// The settings of a window: its title, its size in pixels, and whether it
/// fills the screen and can be resized.
pub struct WindowConfig {
    pub window_title: String,
    pub window_width: i32,
    pub window_height: i32,
    pub fullscreen: bool,
    pub window_resizable: bool,
}

/// The window of the editor: 1290 by 720 pixels, neither filling the screen
/// nor to be resized.
pub fn window_config() -> (config: WindowConfig)
    ensures
        config.window_title@ == "Graph Visualiser"@,
        config.window_width == 1290,
        config.window_height == 720,
        !config.fullscreen,
        !config.window_resizable,
{
    WindowConfig {
        window_title: "Graph Visualiser".to_owned(),
        window_width: 1290,
        window_height: 720,
        fullscreen: false,
        window_resizable: false,
    }
}

} // verus!
