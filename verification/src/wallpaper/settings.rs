//! The only knobs Spiral Wallpaper has, with their stated defaults.

use vstd::prelude::*;

verus! {

#[derive(Debug, Clone, Copy, PartialEq, Eq, Structural)]
pub enum FitMode {
    Fill,
    Fit,
    Center,
}

#[derive(Debug, Clone, Copy)]
pub struct Settings {
    pub launch_at_login: bool,
    pub keep_running_in_background: bool,
    pub fit_mode: FitMode,
    pub first_run_completed: bool,
}

impl Default for Settings {
    /// Launch at login off, running in the background on (both disclosed),
    /// fill the screen, first run not yet done.
    fn default() -> (r: Self)
        ensures
            !r.launch_at_login,
            r.keep_running_in_background,
            r.fit_mode == FitMode::Fill,
            !r.first_run_completed,
    {
        Settings {
            launch_at_login: false,
            keep_running_in_background: true,
            fit_mode: FitMode::Fill,
            first_run_completed: false,
        }
    }
}

/// `NSImageScaling` for a fit mode: proportional for fill and fit, none for
/// center.
pub fn macos_scaling(fit: FitMode) -> (r: usize)
    ensures
        r == (if fit == FitMode::Center { 2usize } else { 3usize }),
{
    match fit {
        FitMode::Fill | FitMode::Fit => 3,
        FitMode::Center => 2,
    }
}

/// Clipping is allowed only when filling.
pub fn macos_clipping(fit: FitMode) -> (r: bool)
    ensures
        r == (fit == FitMode::Fill),
{
    match fit {
        FitMode::Fill => true,
        _ => false,
    }
}

pub open spec fn windows_style_spec(fit: FitMode) -> Seq<char> {
    match fit {
        FitMode::Fill => "10"@,
        FitMode::Fit => "6"@,
        FitMode::Center => "0"@,
    }
}

/// The `WallpaperStyle` registry value: 10 fill, 6 fit, 0 center.
pub fn windows_style(fit: FitMode) -> (r: &'static str)
    ensures
        r@ == windows_style_spec(fit),
{
    match fit {
        FitMode::Fill => "10",
        FitMode::Fit => "6",
        FitMode::Center => "0",
    }
}

} // verus!
