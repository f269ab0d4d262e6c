use vstd::prelude::*;

use crate::editor_commands::EditorCommand;
use crate::input_mode::InputMode;
use crate::notebook::{
    lines_view, Cell, CellView, CodeCell, CodeCellView, MarkdownCell, MarkdownCellView,
    MetadataView, Notebook, NotebookView, RawCell, RawCellView,
};
use crate::panes::{FilePicker, Outliner, VariablesViewer};
use crate::text_util::{chars_of, string_from_chars};

verus! {

// ---------------------------------------------------------------------------
// The editing session: open tabs, the focused tab, the active mode, the
// optional panes and the termination flag.  Commands are applied here; the
// transition each command makes is the specification function
// `apply_command`, and the dispatcher is proved to follow it exactly.
// ---------------------------------------------------------------------------

/// Which pane is shown on the left, when one is.
#[derive(Debug, Clone, Copy, PartialEq, Eq, Structural)]
pub enum LeftPaneMode {
    FilePicker,
    Outline,
}

impl Default for LeftPaneMode {
    fn default() -> (r: Self)
        ensures
            r == LeftPaneMode::FilePicker,
    {
        LeftPaneMode::FilePicker
    }
}

/// Which pane is shown on the right, when one is.
#[derive(Debug, Clone, Copy, PartialEq, Eq, Structural)]
pub enum RightPaneMode {
    Symbols,
    Variables,
}

impl Default for RightPaneMode {
    fn default() -> (r: Self)
        ensures
            r == RightPaneMode::Symbols,
    {
        RightPaneMode::Symbols
    }
}

/// The editing position inside a tab: a cell, a line of its source, and a
/// column in that line.  Out-of-range positions are clamped when they are
/// used, never an error.
#[derive(Debug, Clone, Copy, PartialEq, Eq, Structural)]
pub struct Cursor {
    pub cell: usize,
    pub line: usize,
    pub column: usize,
}

/// One open tab: a document, its place on disk, and its editing state.
#[derive(Debug, PartialEq)]
pub struct EditorTab {
    pub name: String,
    pub path: String,
    pub content: Notebook,
    pub is_dirty: bool,
    pub is_read_only: bool,
    pub cursor: Cursor,
}

#[verifier::ext_equal]
pub struct TabView {
    pub name: Seq<char>,
    pub path: Seq<char>,
    pub content: NotebookView,
    pub is_dirty: bool,
    pub is_read_only: bool,
    pub cursor: Cursor,
}

impl View for EditorTab {
    type V = TabView;

    open spec fn view(&self) -> TabView {
        TabView {
            name: self.name@,
            path: self.path@,
            content: self.content@,
            is_dirty: self.is_dirty,
            is_read_only: self.is_read_only,
            cursor: self.cursor,
        }
    }
}

/// The session state that commands act on.
#[verifier::ext_equal]
pub struct SessionView {
    pub left_pane: Option<LeftPaneMode>,
    pub right_pane: Option<RightPaneMode>,
    pub file_path: Option<Seq<char>>,
    pub tabs: Seq<TabView>,
    pub tab_selected: int,
    pub input_mode: InputMode,
    pub leaving: bool,
}

/// The empty document a fresh tab holds.
pub open spec fn initial_notebook() -> NotebookView {
    NotebookView {
        cells: Seq::empty(),
        metadata: MetadataView { kernelspec: None, language_info: None, other: Seq::empty() },
        nbformat: 4,
        nbformat_minor: 5,
    }
}

/// A fresh, unnamed tab over an empty notebook.  The path holds the default
/// file name alone; the surrounding program prefixes the directory it saves
/// into, which the core cannot look up.
pub open spec fn initial_tab() -> TabView {
    TabView {
        name: "[unnamed]"@,
        path: "nbterm_tmp.ipynb"@,
        content: initial_notebook(),
        is_dirty: false,
        is_read_only: false,
        cursor: Cursor { cell: 0, line: 0, column: 0 },
    }
}

/// The source lines of a cell, whatever its kind.
pub open spec fn cell_source(c: CellView) -> Seq<Seq<char>> {
    match c {
        CellView::Code(cc) => cc.source,
        CellView::Markdown(mc) => mc.source,
        CellView::Raw(rc) => rc.source,
    }
}

/// The same cell with its source lines replaced; everything else kept.
pub open spec fn cell_with_source(c: CellView, src: Seq<Seq<char>>) -> CellView {
    match c {
        CellView::Code(cc) => CellView::Code(CodeCellView { source: src, ..cc }),
        CellView::Markdown(mc) => CellView::Markdown(MarkdownCellView { source: src, ..mc }),
        CellView::Raw(rc) => CellView::Raw(RawCellView { source: src, ..rc }),
    }
}

pub open spec fn clamp_to(x: int, hi: int) -> int {
    if x > hi {
        hi
    } else {
        x
    }
}

/// Inserting `text` into `src` at the clamped cursor position: the new
/// lines, the line edited, and the column just past the inserted span.  A
/// cell with no lines gains one line holding the text.
pub open spec fn splice_spec(src: Seq<Seq<char>>, line: int, column: int, text: Seq<char>) -> (
    Seq<Seq<char>>,
    int,
    int,
) {
    if src.len() == 0 {
        (seq![text], 0, text.len() as int)
    } else {
        let li = clamp_to(line, src.len() - 1);
        let old_line = src[li];
        let col = clamp_to(column, old_line.len() as int);
        let new_line = old_line.subrange(0, col) + text + old_line.subrange(
            col,
            old_line.len() as int,
        );
        (src.update(li, new_line), li, col + text.len())
    }
}

/// Literal text insertion at the focused tab's cursor.
///
/// Nothing happens on a read-only tab, on empty text, or when the notebook
/// has no cell to edit; otherwise the text goes into the focused cell's
/// focused line at the clamped cursor, the cursor moves to the end of the
/// inserted span, and the tab is marked dirty.  Cell count and order never
/// change here.
pub open spec fn apply_input(s: SessionView, text: Seq<char>) -> SessionView {
    if !(0 <= s.tab_selected < s.tabs.len()) {
        s
    } else {
        let t = s.tabs[s.tab_selected];
        if t.is_read_only || text.len() == 0 || t.content.cells.len() == 0 {
            s
        } else {
            let cells = t.content.cells;
            let ci = clamp_to(t.cursor.cell as int, cells.len() - 1);
            let spliced = splice_spec(
                cell_source(cells[ci]),
                t.cursor.line as int,
                t.cursor.column as int,
                text,
            );
            let t2 = TabView {
                content: NotebookView {
                    cells: cells.update(ci, cell_with_source(cells[ci], spliced.0)),
                    ..t.content
                },
                is_dirty: true,
                cursor: Cursor {
                    cell: ci as usize,
                    line: spliced.1 as usize,
                    column: spliced.2 as usize,
                },
                ..t
            };
            SessionView { tabs: s.tabs.update(s.tab_selected, t2), ..s }
        }
    }
}

/// A session always has at least one tab, and the focused index is in
/// range.
pub open spec fn wf_session(s: SessionView) -> bool {
    s.tabs.len() >= 1 && 0 <= s.tab_selected < s.tabs.len()
}

/// Applies `c` to `s` `n` times, left to right.
pub open spec fn apply_n(s: SessionView, c: EditorCommand, n: nat) -> SessionView
    decreases c, n + 1,
{
    if n == 0 {
        s
    } else {
        apply_n(apply_command(s, c), c, (n - 1) as nat)
    }
}

/// The transition one command makes.
///
/// Mode switches set the mode; `Quit` sets the termination flag; pane
/// toggles flip the optional panes; tab navigation clamps to the valid
/// range; `NewFile` and `CloseFile` grow and shrink the tab list, a session
/// keeping at least one tab; `Repeat` applies its inner command that many
/// times; `Input` inserts its text at the focused tab's cursor, as
/// `apply_input` says.  The commands the remaining arms name one by one
/// change nothing here, each for the reason its arm gives.
pub open spec fn apply_command(s: SessionView, c: EditorCommand) -> SessionView
    decreases c, 0int,
{
    match c {
        EditorCommand::Quit => SessionView { leaving: true, ..s },
        EditorCommand::SwitchToInsertMode => SessionView { input_mode: InputMode::Insert, ..s },
        EditorCommand::SwitchToNormalMode => SessionView { input_mode: InputMode::Normal, ..s },
        EditorCommand::SwitchToVisualMode => SessionView { input_mode: InputMode::Visual, ..s },
        EditorCommand::SwitchToVisualLineMode => SessionView {
            input_mode: InputMode::VisualLine,
            ..s
        },
        EditorCommand::SwitchToVisualBlockMode => SessionView {
            input_mode: InputMode::VisualBlock,
            ..s
        },
        EditorCommand::SwitchToReplaceMode => SessionView { input_mode: InputMode::Replace, ..s },
        EditorCommand::SwitchToCommandMode => SessionView { input_mode: InputMode::Command, ..s },
        EditorCommand::ToggleFilePicker => SessionView {
            left_pane: if s.left_pane == Some(LeftPaneMode::FilePicker) {
                None
            } else {
                Some(LeftPaneMode::FilePicker)
            },
            ..s
        },
        EditorCommand::ToggleOutline => SessionView {
            left_pane: if s.left_pane == Some(LeftPaneMode::Outline) {
                None
            } else {
                Some(LeftPaneMode::Outline)
            },
            ..s
        },
        EditorCommand::ToggleSymbols => SessionView {
            right_pane: if s.right_pane == Some(RightPaneMode::Symbols) {
                None
            } else {
                Some(RightPaneMode::Symbols)
            },
            ..s
        },
        EditorCommand::ToggleLeftPane => SessionView {
            left_pane: if s.left_pane is Some {
                None
            } else {
                Some(LeftPaneMode::FilePicker)
            },
            ..s
        },
        EditorCommand::ToggleRightPane => SessionView {
            right_pane: if s.right_pane is Some {
                None
            } else {
                Some(RightPaneMode::Symbols)
            },
            ..s
        },
        EditorCommand::ToNextTab => SessionView {
            tab_selected: if s.tab_selected + 1 < s.tabs.len() {
                s.tab_selected + 1
            } else {
                s.tab_selected
            },
            ..s
        },
        EditorCommand::ToPreviousTab => SessionView {
            tab_selected: if s.tab_selected > 0 {
                s.tab_selected - 1
            } else {
                0
            },
            ..s
        },
        EditorCommand::ToTab(i) => SessionView {
            tab_selected: if i < s.tabs.len() {
                i as int
            } else if s.tabs.len() > 0 {
                s.tabs.len() - 1
            } else {
                s.tab_selected
            },
            ..s
        },
        EditorCommand::NewFile => SessionView {
            tabs: s.tabs.push(initial_tab()),
            tab_selected: s.tabs.len() as int,
            ..s
        },
        EditorCommand::CloseFile => if s.tabs.len() > 1 && 0 <= s.tab_selected < s.tabs.len() {
            let rest = s.tabs.remove(s.tab_selected);
            SessionView {
                tabs: rest,
                tab_selected: if s.tab_selected < rest.len() {
                    s.tab_selected
                } else {
                    rest.len() - 1
                },
                ..s
            }
        } else {
            s
        },
        EditorCommand::Repeat(inner, n) => apply_n(s, *inner, n as nat),
        EditorCommand::Input(text) => apply_input(s, text@),
        // performed by the surrounding program, which reads these from the
        // translator and does the file work before this step
        EditorCommand::OpenFile(_)
        | EditorCommand::SaveFile
        | EditorCommand::SaveFileAs(_) => s,
        // the interface flags these flip live with the surrounding program,
        // which holds no state in this core
        EditorCommand::ToggleSettings
        | EditorCommand::ToggleSearch
        | EditorCommand::ToggleTabline
        | EditorCommand::ToggleStatusBar
        | EditorCommand::ToggleDiff
        | EditorCommand::ToggleLineNumbers
        | EditorCommand::ToggleWordWrap
        | EditorCommand::ToggleAutoIndent
        | EditorCommand::ToggleSyntaxHighlighting
        | EditorCommand::ToggleAutoComplete
        | EditorCommand::ToggleAutoCloseBrackets
        | EditorCommand::ToggleAutoCloseQuotes => s,
        // focus movement between panes: the core keeps no focused-pane state
        EditorCommand::ToLeftPane
        | EditorCommand::ToRightPane
        | EditorCommand::ToUpperPane
        | EditorCommand::ToLowerPane => s,
        // these need the selection, clipboard, search and history model,
        // which is not part of this core's minimum surface
        EditorCommand::Undo
        | EditorCommand::Redo
        | EditorCommand::Navigate(_)
        | EditorCommand::Search(_)
        | EditorCommand::Replace(_)
        | EditorCommand::DeleteText
        | EditorCommand::DeleteLine
        | EditorCommand::DeleteWord
        | EditorCommand::DeletePreviousWord
        | EditorCommand::DeleteToEndOfLine
        | EditorCommand::DeleteToStartOfLine
        | EditorCommand::DeleteToEndOfFile
        | EditorCommand::DeleteToStartOfFile
        | EditorCommand::Copy
        | EditorCommand::Cut
        | EditorCommand::Paste
        | EditorCommand::Concatenate
        | EditorCommand::Skip
        | EditorCommand::Deselect => s,
    }
}

/// Commands keep a session well formed.
pub proof fn lemma_apply_wf(s: SessionView, c: EditorCommand)
    requires
        wf_session(s),
    ensures
        wf_session(apply_command(s, c)),
    decreases c, 0int,
{
    match c {
        EditorCommand::Repeat(inner, n) => {
            lemma_apply_n_wf(s, *inner, n as nat);
        },
        _ => {},
    }
}

pub proof fn lemma_apply_n_wf(s: SessionView, c: EditorCommand, n: nat)
    requires
        wf_session(s),
    ensures
        wf_session(apply_n(s, c, n)),
    decreases c, n + 1,
{
    if n > 0 {
        lemma_apply_wf(s, c);
        lemma_apply_n_wf(apply_command(s, c), c, (n - 1) as nat);
    }
}

/// Repetition of `Quit` sets the termination flag exactly once: whatever
/// the count, the result differs from the start state only in that flag,
/// so repeated application double-fires nothing.
pub proof fn lemma_repeat_quit(s: SessionView, n: nat)
    requires
        n >= 1,
    ensures
        apply_n(s, EditorCommand::Quit, n) == (SessionView { leaving: true, ..s }),
    decreases n,
{
    let s1 = apply_command(s, EditorCommand::Quit);
    assert(s1 == (SessionView { leaving: true, ..s }));
    if n == 1 {
        assert(apply_n(s1, EditorCommand::Quit, 0) == s1);
    } else {
        lemma_repeat_quit(s1, (n - 1) as nat);
        assert(apply_n(s, EditorCommand::Quit, n) == apply_n(s1, EditorCommand::Quit, (n - 1) as nat));
        assert((SessionView { leaving: true, ..s1 }) =~= (SessionView { leaving: true, ..s }));
    }
}

/// The same, stated of the `Repeat` command itself.
pub proof fn lemma_repeat_quit_command(s: SessionView, c: EditorCommand)
    requires
        c matches EditorCommand::Repeat(inner, n) && *inner == EditorCommand::Quit && n >= 1,
    ensures
        apply_command(s, c) == (SessionView { leaving: true, ..s }),
{
    match c {
        EditorCommand::Repeat(inner, n) => {
            lemma_repeat_quit(s, n as nat);
        },
        _ => {},
    }
}

// ---------------------------------------------------------------------------
// The session object
// ---------------------------------------------------------------------------

pub open spec fn tabs_view(ts: Seq<EditorTab>) -> Seq<TabView> {
    Seq::new(
        ts.len(),
        |i: int|
            if 0 <= i < ts.len() {
                ts[i]@
            } else {
                initial_tab()
            },
    )
}

/// The editing session.  The pane structs carry data for the surrounding
/// interface and take no part in command application.
#[derive(Debug)]
pub struct NotebookApp {
    pub left_pane_mode: Option<LeftPaneMode>,
    pub right_pane_mode: Option<RightPaneMode>,
    pub file_path: Option<String>,
    pub file_picker: FilePicker,
    pub outliner: Outliner,
    pub variables: VariablesViewer,
    pub tabs: Vec<EditorTab>,
    pub tab_selected: usize,
    pub input_mode: InputMode,
    pub leaving: bool,
}

impl View for NotebookApp {
    type V = SessionView;

    open spec fn view(&self) -> SessionView {
        SessionView {
            left_pane: self.left_pane_mode,
            right_pane: self.right_pane_mode,
            file_path: match self.file_path {
                None => None,
                Some(p) => Some(p@),
            },
            tabs: tabs_view(self.tabs@),
            tab_selected: self.tab_selected as int,
            input_mode: self.input_mode,
            leaving: self.leaving,
        }
    }
}

/// A fresh, unnamed tab over an empty notebook.
fn new_tab() -> (t: EditorTab)
    ensures
        t@ == initial_tab(),
{
    let content = Notebook::new();
    let t = EditorTab {
        name: "[unnamed]".to_owned(),
        path: "nbterm_tmp.ipynb".to_owned(),
        content,
        is_dirty: false,
        is_read_only: false,
        cursor: Cursor { cell: 0, line: 0, column: 0 },
    };
    assert(t@.content =~~= initial_notebook());
    assert(t@ =~~= initial_tab());
    t
}

/// Inserts `text` into `lines` at the clamped position, exactly as
/// `splice_spec` says; yields the new lines, the line edited, and the
/// column just past the inserted span.
#[verifier::loop_isolation(false)]
fn splice_lines(lines: Vec<String>, line: usize, column: usize, text: &str) -> (r: (
    Vec<String>,
    usize,
    usize,
))
    ensures
        ({
            let sp = splice_spec(lines_view(lines@), line as int, column as int, text@);
            lines_view(r.0@) == sp.0 && r.1 as int == sp.1 && r.2 as int == sp.2
        }),
{
    let mut ls = lines;
    let tc = chars_of(text);
    if ls.len() == 0 {
        let nl = string_from_chars(&tc);
        ls.push(nl);
        proof {
            assert(lines_view(ls@) =~~= seq![text@]);
        }
        (ls, 0, tc.len())
    } else {
        let nlines = ls.len();
        let li = if line < nlines {
            line
        } else {
            nlines - 1
        };
        let old_line = ls.remove(li);
        let lc = chars_of(old_line.as_str());
        let llen = lc.len();
        let col = if column < llen {
            column
        } else {
            llen
        };
        let mut nl: Vec<char> = Vec::new();
        let mut k: usize = 0;
        assert(lc@.subrange(0, 0) =~= Seq::<char>::empty());
        while k < col
            invariant
                k <= col,
                nl@ == lc@.subrange(0, k as int),
            decreases col - k,
        {
            let c = lc[k];
            nl.push(c);
            assert(lc@.subrange(0, k as int + 1) =~= lc@.subrange(0, k as int).push(lc@[k as int]));
            k = k + 1;
        }
        k = 0;
        assert(tc@.subrange(0, 0) =~= Seq::<char>::empty());
        assert(nl@ =~= lc@.subrange(0, col as int) + tc@.subrange(0, 0));
        while k < tc.len()
            invariant
                k <= tc@.len(),
                nl@ == lc@.subrange(0, col as int) + tc@.subrange(0, k as int),
            decreases tc@.len() - k,
        {
            let c = tc[k];
            nl.push(c);
            assert(tc@.subrange(0, k as int + 1) =~= tc@.subrange(0, k as int).push(tc@[k as int]));
            assert(nl@ =~= lc@.subrange(0, col as int) + tc@.subrange(0, k as int + 1));
            k = k + 1;
        }
        assert(tc@.subrange(0, tc@.len() as int) =~= tc@);
        k = col;
        assert(lc@.subrange(col as int, col as int) =~= Seq::<char>::empty());
        assert(nl@ =~= lc@.subrange(0, col as int) + tc@ + lc@.subrange(col as int, col as int));
        while k < lc.len()
            invariant
                col <= k <= lc@.len(),
                nl@ == lc@.subrange(0, col as int) + tc@ + lc@.subrange(col as int, k as int),
            decreases lc@.len() - k,
        {
            let c = lc[k];
            nl.push(c);
            assert(lc@.subrange(col as int, k as int + 1) =~= lc@.subrange(
                col as int,
                k as int,
            ).push(lc@[k as int]));
            assert(nl@ =~= lc@.subrange(0, col as int) + tc@ + lc@.subrange(
                col as int,
                k as int + 1,
            ));
            k = k + 1;
        }
        assert(lc@.subrange(col as int, lc@.len() as int) =~= lc@.subrange(
            col as int,
            lc@.len() as int,
        ));
        let total = nl.len();
        assert(total == col + tc@.len() + (lc@.len() - col));
        let newcol = col + tc.len();
        let new_line = string_from_chars(&nl);
        ls.insert(li, new_line);
        proof {
            let sp = splice_spec(lines_view(lines@), line as int, column as int, text@);
            assert(lines_view(lines@)[li as int] == old_line@);
            assert(lines_view(ls@) =~~= lines_view(lines@).update(li as int, sp.0[li as int]));
            assert(lines_view(ls@) =~~= sp.0);
        }
        (ls, li, newcol)
    }
}

impl Default for EditorTab {
    fn default() -> (t: Self)
        ensures
            t@ == initial_tab(),
    {
        new_tab()
    }
}

/// The session a run starts with: one fresh tab, Normal mode, no panes.
pub open spec fn initial_session() -> SessionView {
    SessionView {
        left_pane: None,
        right_pane: None,
        file_path: None,
        tabs: seq![initial_tab()],
        tab_selected: 0,
        input_mode: InputMode::Normal,
        leaving: false,
    }
}

impl Default for NotebookApp {
    fn default() -> (r: Self)
        ensures
            r@ == initial_session(),
            wf_session(r@),
    {
        let mut tabs: Vec<EditorTab> = Vec::new();
        tabs.push(new_tab());
        let r = NotebookApp {
            left_pane_mode: None,
            right_pane_mode: None,
            file_path: None,
            file_picker: FilePicker::default(),
            outliner: Outliner::default(),
            variables: VariablesViewer::default(),
            tabs,
            tab_selected: 0,
            input_mode: InputMode::Normal,
            leaving: false,
        };
        assert(tabs_view(r.tabs@) =~~= seq![initial_tab()]);
        assert(r@ =~~= initial_session());
        r
    }
}

impl NotebookApp {
    /// Applies one command to the session, exactly as `apply_command`
    /// describes.  Commands never fail: out-of-range navigation clamps, and
    /// commands this core does not interpret change nothing.
    #[verifier::loop_isolation(false)]
    #[verifier::rlimit(100)]
    pub fn execute_command(&mut self, command: &EditorCommand)
        requires
            wf_session(old(self)@),
        ensures
            final(self)@ == apply_command(old(self)@, *command),
            wf_session(final(self)@),
            final(self).file_picker == old(self).file_picker,
            final(self).outliner == old(self).outliner,
            final(self).variables == old(self).variables,
        decreases *command,
    {
        proof {
            lemma_apply_wf(old(self)@, *command);
        }
        match command {
            EditorCommand::Quit => {
                self.leaving = true;
                assert(self@ =~~= apply_command(old(self)@, *command));
            },
            EditorCommand::SwitchToInsertMode => {
                self.input_mode = InputMode::Insert;
                assert(self@ =~~= apply_command(old(self)@, *command));
            },
            EditorCommand::SwitchToNormalMode => {
                self.input_mode = InputMode::Normal;
                assert(self@ =~~= apply_command(old(self)@, *command));
            },
            EditorCommand::SwitchToVisualMode => {
                self.input_mode = InputMode::Visual;
                assert(self@ =~~= apply_command(old(self)@, *command));
            },
            EditorCommand::SwitchToVisualLineMode => {
                self.input_mode = InputMode::VisualLine;
                assert(self@ =~~= apply_command(old(self)@, *command));
            },
            EditorCommand::SwitchToVisualBlockMode => {
                self.input_mode = InputMode::VisualBlock;
                assert(self@ =~~= apply_command(old(self)@, *command));
            },
            EditorCommand::SwitchToReplaceMode => {
                self.input_mode = InputMode::Replace;
                assert(self@ =~~= apply_command(old(self)@, *command));
            },
            EditorCommand::SwitchToCommandMode => {
                self.input_mode = InputMode::Command;
                assert(self@ =~~= apply_command(old(self)@, *command));
            },
            EditorCommand::ToggleFilePicker => {
                self.left_pane_mode = (match self.left_pane_mode {
                    Some(LeftPaneMode::FilePicker) => None,
                    _ => Some(LeftPaneMode::FilePicker),
                });
                assert(self@ =~~= apply_command(old(self)@, *command));
            },
            EditorCommand::ToggleOutline => {
                self.left_pane_mode = (match self.left_pane_mode {
                    Some(LeftPaneMode::Outline) => None,
                    _ => Some(LeftPaneMode::Outline),
                });
                assert(self@ =~~= apply_command(old(self)@, *command));
            },
            EditorCommand::ToggleSymbols => {
                self.right_pane_mode = (match self.right_pane_mode {
                    Some(RightPaneMode::Symbols) => None,
                    _ => Some(RightPaneMode::Symbols),
                });
                assert(self@ =~~= apply_command(old(self)@, *command));
            },
            EditorCommand::ToggleLeftPane => {
                self.left_pane_mode = (match self.left_pane_mode {
                    Some(_) => None,
                    None => Some(LeftPaneMode::FilePicker),
                });
                assert(self@ =~~= apply_command(old(self)@, *command));
            },
            EditorCommand::ToggleRightPane => {
                self.right_pane_mode = (match self.right_pane_mode {
                    Some(_) => None,
                    None => Some(RightPaneMode::Symbols),
                });
                assert(self@ =~~= apply_command(old(self)@, *command));
            },
            EditorCommand::ToNextTab => {
                if self.tab_selected < self.tabs.len() - 1 {
                    self.tab_selected = self.tab_selected + 1;
                }
                assert(self@ =~~= apply_command(old(self)@, *command));
            },
            EditorCommand::ToPreviousTab => {
                if self.tab_selected > 0 {
                    self.tab_selected = self.tab_selected - 1;
                }
                assert(self@ =~~= apply_command(old(self)@, *command));
            },
            EditorCommand::ToTab(i) => {
                if *i < self.tabs.len() {
                    self.tab_selected = *i;
                } else {
                    self.tab_selected = self.tabs.len() - 1;
                }
                assert(self@ =~~= apply_command(old(self)@, *command));
            },
            EditorCommand::NewFile => {
                let t = new_tab();
                self.tabs.push(t);
                self.tab_selected = self.tabs.len() - 1;
                assert(tabs_view(self.tabs@) =~~= tabs_view(old(self).tabs@).push(initial_tab()));
                assert(self@ =~~= apply_command(old(self)@, *command));
            },
            EditorCommand::CloseFile => {
                if self.tabs.len() > 1 {
                    self.tabs.remove(self.tab_selected);
                    if self.tab_selected >= self.tabs.len() {
                        self.tab_selected = self.tabs.len() - 1;
                    }
                    assert(tabs_view(self.tabs@) =~~= tabs_view(old(self).tabs@).remove(
                        old(self).tab_selected as int,
                    ));
                }
                assert(self@ =~~= apply_command(old(self)@, *command));
            },
            EditorCommand::Input(text) => {
                let sel = self.tab_selected;
                let mut tab = self.tabs.remove(sel);
                if !tab.is_read_only && !text.as_str().is_empty() && tab.content.cells.len() > 0 {
                    let ncells = tab.content.cells.len();
                    let ci = if tab.cursor.cell < ncells {
                        tab.cursor.cell
                    } else {
                        ncells - 1
                    };
                    let cell = tab.content.cells.remove(ci);
                    let cur = tab.cursor;
                    let ghost oldcell = cell@;
                    match cell {
                        Cell::Code(cc) => {
                            let CodeCell { source, metadata, execution_count, outputs } = cc;
                            let (src2, li, co) = splice_lines(source, cur.line, cur.column, text.as_str());
                            tab.content.cells.insert(
                                ci,
                                Cell::Code(
                                    CodeCell { source: src2, metadata, execution_count, outputs },
                                ),
                            );
                            tab.cursor = Cursor { cell: ci, line: li, column: co };
                        },
                        Cell::Markdown(mc) => {
                            let MarkdownCell { source, metadata } = mc;
                            let (src2, li, co) = splice_lines(source, cur.line, cur.column, text.as_str());
                            tab.content.cells.insert(
                                ci,
                                Cell::Markdown(MarkdownCell { source: src2, metadata }),
                            );
                            tab.cursor = Cursor { cell: ci, line: li, column: co };
                        },
                        Cell::Raw(rc) => {
                            let RawCell { source, metadata } = rc;
                            let (src2, li, co) = splice_lines(source, cur.line, cur.column, text.as_str());
                            tab.content.cells.insert(
                                ci,
                                Cell::Raw(RawCell { source: src2, metadata }),
                            );
                            tab.cursor = Cursor { cell: ci, line: li, column: co };
                        },
                    }
                    tab.is_dirty = true;
                    proof {
                        let t = old(self)@.tabs[sel as int];
                        let cells = t.content.cells;
                        let spliced = splice_spec(
                            cell_source(cells[ci as int]),
                            t.cursor.line as int,
                            t.cursor.column as int,
                            text@,
                        );
                        assert(crate::notebook::cells_view(tab.content.cells@) =~~= cells.update(
                            ci as int,
                            cell_with_source(cells[ci as int], spliced.0),
                        ));
                    }
                    self.tabs.insert(sel, tab);
                    proof {
                        let s2 = apply_input(old(self)@, text@);
                        assert(tabs_view(self.tabs@) =~~= s2.tabs);
                        assert(self@ =~~= s2);
                    }
                } else {
                    self.tabs.insert(sel, tab);
                    assert(tabs_view(self.tabs@) =~~= tabs_view(old(self).tabs@));
                    assert(self@ =~~= old(self)@);
                }
                assert(self@ =~~= apply_command(old(self)@, *command));
            },
            EditorCommand::Repeat(inner, n) => {
                let total: usize = *n;
                let mut k: usize = 0;
                while k < total
                    invariant
                        k <= total,
                        wf_session(self@),
                        apply_n(old(self)@, **inner, total as nat) == apply_n(
                            self@,
                            **inner,
                            (total - k) as nat,
                        ),
                        self.file_picker == old(self).file_picker,
                        self.outliner == old(self).outliner,
                        self.variables == old(self).variables,
                    decreases total - k,
                {
                    self.execute_command(inner);
                    k = k + 1;
                }
                assert(apply_n(self@, **inner, 0) == self@);
            },
            _ => {
                assert(self@ =~~= apply_command(old(self)@, *command));
            },
        }
    }
}

} // verus!
