use vstd::prelude::*;

verus! {

/// The closed set of editing, navigation, file and mode-switch commands
/// that key input translates to.  Paths and search patterns are carried as
/// text; the surrounding program interprets them.
#[derive(Debug, PartialEq)]
pub enum EditorCommand {
    // Editor actions
    Quit,
    ToggleFilePicker,
    ToggleOutline,
    ToggleSettings,
    ToggleSymbols,
    ToggleSearch,
    ToggleLeftPane,
    ToggleRightPane,
    ToggleTabline,
    ToggleStatusBar,
    ToggleDiff,
    // Setting toggle actions
    ToggleLineNumbers,
    ToggleWordWrap,
    ToggleAutoIndent,
    ToggleSyntaxHighlighting,
    ToggleAutoComplete,
    ToggleAutoCloseBrackets,
    ToggleAutoCloseQuotes,
    // File actions
    OpenFile(String),
    SaveFile,
    SaveFileAs(String),
    CloseFile,
    NewFile,
    // Primitive actions
    Undo,
    Redo,
    Navigate(NavigationCommand),
    Repeat(Box<EditorCommand>, usize),
    /// Insert this text, then move the cursor to the end of the insertion.
    Input(String),
    // Pane navigation actions
    ToLeftPane,
    ToRightPane,
    ToUpperPane,
    ToLowerPane,
    // Tab navigation actions
    ToNextTab,
    ToPreviousTab,
    ToTab(usize),
    // Search actions
    /// Set the search term; the pattern text is compiled by the caller.
    Search(String),
    /// Replace selected text with this string.
    Replace(String),
    // Text manipulation actions
    DeleteText,
    DeleteLine,
    DeleteWord,
    DeletePreviousWord,
    DeleteToEndOfLine,
    DeleteToStartOfLine,
    DeleteToEndOfFile,
    DeleteToStartOfFile,
    Copy,
    Cut,
    Paste,
    Concatenate,
    // Selection actions (for visual modes)
    /// Move the cursor without selecting, resulting in multiple selections.
    Skip,
    /// Remove selections.
    Deselect,
    // Mode switching
    SwitchToInsertMode,
    SwitchToNormalMode,
    SwitchToVisualMode,
    SwitchToVisualLineMode,
    SwitchToVisualBlockMode,
    SwitchToReplaceMode,
    SwitchToCommandMode,
}

/// A cursor movement; some editor commands carry one as an argument.
#[derive(Debug, Clone, Copy, PartialEq, Eq, Structural)]
pub enum NavigationCommand {
    Up,
    Down,
    Left,
    Right,
    ToLine(usize),
    ToColumn(usize),
    ToNextWordStart,
    ToNextWordEnd,
    ToPreviousWordStart,
    ToLineStart,
    ToLineEnd,
    PageDown,
    PageUp,
    ToNextSearchResultStart,
    ToNextSearchResultEnd,
    ToPreviousSearchResultStart,
    ToPreviousSearchResultEnd,
    ToNextOutlineItemStart,
    ToNextOutlineItemEnd,
    ToPreviousOutlineItemStart,
    ToPreviousOutlineItemEnd,
    ToNextBookmark,
}

} // verus!
