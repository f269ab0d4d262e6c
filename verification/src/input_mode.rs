use vstd::prelude::*;

verus! {

/// The active interpretation context for raw key input.  Exactly one mode
/// is active at a time; a session starts in `Normal`.
#[derive(Debug, Clone, Copy, PartialEq, Eq, Structural)]
pub enum InputMode {
    Normal,
    Insert,
    Command,
    Visual,
    VisualLine,
    VisualBlock,
    Replace,
    /// Not an editing mode: key input drives navigation in the surrounding
    /// interface.
    UICursor,
}

/// The short status-bar tag of each mode.
pub open spec fn mode_label(m: InputMode) -> Seq<char> {
    match m {
        InputMode::Normal => "[Nor]"@,
        InputMode::Insert => "[Ins]"@,
        InputMode::Command => "[Cmd]"@,
        InputMode::Visual => "[Vis]"@,
        InputMode::VisualLine => "[ViL]"@,
        InputMode::VisualBlock => "[ViB]"@,
        InputMode::Replace => "[Rep]"@,
        InputMode::UICursor => "[Cur]"@,
    }
}

impl InputMode {
    /// The short status-bar tag of this mode.
    pub fn label(&self) -> (r: &'static str)
        ensures
            r@ == mode_label(*self),
    {
        match self {
            InputMode::Normal => "[Nor]",
            InputMode::Insert => "[Ins]",
            InputMode::Command => "[Cmd]",
            InputMode::Visual => "[Vis]",
            InputMode::VisualLine => "[ViL]",
            InputMode::VisualBlock => "[ViB]",
            InputMode::Replace => "[Rep]",
            InputMode::UICursor => "[Cur]",
        }
    }
}

impl Default for InputMode {
    fn default() -> (r: Self)
        ensures
            r == InputMode::Normal,
    {
        InputMode::Normal
    }
}

} // verus!
