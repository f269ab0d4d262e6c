use nbterm::editor_commands::EditorCommand;
use nbterm::event_translator::EventTranslator;
use nbterm::input_mode::InputMode;
use nbterm::keys::{InputEvent, KeyCode, KeyModifiers};
use nbterm::notebook::Cell;
use nbterm::session::{Cursor, LeftPaneMode, NotebookApp, RightPaneMode};

fn ctrl(c: char) -> InputEvent {
    InputEvent::Key(KeyCode::Char(c), KeyModifiers::control())
}

fn plain(code: KeyCode) -> InputEvent {
    InputEvent::Key(code, KeyModifiers::none())
}

#[test]
fn mode_isolation_for_insert_only_binding() {
    let t = EventTranslator::default();
    // Ctrl+W is bound only in the Insert table
    assert!(t.translate_event(ctrl('w'), InputMode::Normal).is_none());
    assert!(matches!(
        t.translate_event(ctrl('w'), InputMode::Insert),
        Some(EditorCommand::DeletePreviousWord)
    ));
}

#[test]
fn unbound_keys_are_ignored() {
    let t = EventTranslator::default();
    assert!(t.translate_event(plain(KeyCode::Char('z')), InputMode::Normal).is_none());
    assert!(t.translate_event(ctrl('q'), InputMode::Visual).is_none());
    assert!(t.translate_event(ctrl('q'), InputMode::Replace).is_none());
    assert!(t.translate_event(InputEvent::Other, InputMode::Normal).is_none());
}

#[test]
fn default_normal_bindings_translate() {
    let t = EventTranslator::default();
    assert!(matches!(
        t.translate_event(ctrl('q'), InputMode::Normal),
        Some(EditorCommand::Quit)
    ));
    assert!(matches!(
        t.translate_event(ctrl('i'), InputMode::Normal),
        Some(EditorCommand::SwitchToInsertMode)
    ));
    assert!(matches!(
        t.translate_event(plain(KeyCode::Char('V')), InputMode::Normal),
        Some(EditorCommand::SwitchToVisualLineMode)
    ));
    // the later binding for Ctrl+V is the one in force
    assert!(matches!(
        t.translate_event(ctrl('v'), InputMode::Normal),
        Some(EditorCommand::SwitchToVisualBlockMode)
    ));
}

#[test]
fn default_insert_bindings_translate() {
    let t = EventTranslator::default();
    match t.translate_event(ctrl('i'), InputMode::Insert) {
        Some(EditorCommand::Input(text)) => assert_eq!(text, "\t"),
        other => panic!("unexpected translation: {:?}", other),
    }
    assert!(matches!(
        t.translate_event(plain(KeyCode::Esc), InputMode::Insert),
        Some(EditorCommand::SwitchToNormalMode)
    ));
}

#[test]
fn modifiers_must_match_exactly() {
    let t = EventTranslator::default();
    // Ctrl+Q is bound; plain q is not
    assert!(t.translate_event(plain(KeyCode::Char('q')), InputMode::Normal).is_none());
    let shift_ctrl = KeyModifiers { shift: true, control: true, alt: false };
    assert!(t
        .translate_event(InputEvent::Key(KeyCode::Char('q'), shift_ctrl), InputMode::Normal)
        .is_none());
}

#[test]
fn initial_mode_is_normal() {
    assert!(matches!(InputMode::default(), InputMode::Normal));
    let app = NotebookApp::default();
    assert!(matches!(app.input_mode, InputMode::Normal));
    assert!(!app.leaving);
    assert_eq!(app.tabs.len(), 1);
    assert_eq!(app.tab_selected, 0);
}

#[test]
fn mode_labels() {
    assert_eq!(InputMode::Normal.label(), "[Nor]");
    assert_eq!(InputMode::Insert.label(), "[Ins]");
    assert_eq!(InputMode::VisualBlock.label(), "[ViB]");
    assert_eq!(InputMode::UICursor.label(), "[Cur]");
}

#[test]
fn repeat_quit_fires_once() {
    let mut app = NotebookApp::default();
    let cmd = EditorCommand::Repeat(Box::new(EditorCommand::Quit), 3);
    app.execute_command(&cmd);
    assert!(app.leaving);
    // nothing else changed
    assert!(matches!(app.input_mode, InputMode::Normal));
    assert_eq!(app.tabs.len(), 1);
    assert_eq!(app.tab_selected, 0);
    assert!(app.left_pane_mode.is_none());
    // applying it again is harmless
    app.execute_command(&cmd);
    assert!(app.leaving);
    assert_eq!(app.tabs.len(), 1);
}

#[test]
fn mode_switch_commands_change_only_the_mode() {
    let mut app = NotebookApp::default();
    app.execute_command(&EditorCommand::SwitchToInsertMode);
    assert!(matches!(app.input_mode, InputMode::Insert));
    assert!(!app.leaving);
    app.execute_command(&EditorCommand::SwitchToReplaceMode);
    assert!(matches!(app.input_mode, InputMode::Replace));
    app.execute_command(&EditorCommand::SwitchToNormalMode);
    assert!(matches!(app.input_mode, InputMode::Normal));
}

#[test]
fn tab_navigation_clamps() {
    let mut app = NotebookApp::default();
    app.execute_command(&EditorCommand::NewFile);
    app.execute_command(&EditorCommand::NewFile);
    assert_eq!(app.tabs.len(), 3);
    assert_eq!(app.tab_selected, 2);
    app.execute_command(&EditorCommand::ToNextTab);
    assert_eq!(app.tab_selected, 2);
    app.execute_command(&EditorCommand::ToPreviousTab);
    assert_eq!(app.tab_selected, 1);
    app.execute_command(&EditorCommand::ToPreviousTab);
    app.execute_command(&EditorCommand::ToPreviousTab);
    assert_eq!(app.tab_selected, 0);
    app.execute_command(&EditorCommand::ToTab(2));
    assert_eq!(app.tab_selected, 2);
    app.execute_command(&EditorCommand::ToTab(99));
    assert_eq!(app.tab_selected, 2);
}

#[test]
fn closing_tabs_keeps_one() {
    let mut app = NotebookApp::default();
    app.execute_command(&EditorCommand::NewFile);
    assert_eq!(app.tabs.len(), 2);
    app.execute_command(&EditorCommand::CloseFile);
    assert_eq!(app.tabs.len(), 1);
    assert_eq!(app.tab_selected, 0);
    // the last tab stays open
    app.execute_command(&EditorCommand::CloseFile);
    assert_eq!(app.tabs.len(), 1);
}

#[test]
fn pane_toggles_flip() {
    let mut app = NotebookApp::default();
    app.execute_command(&EditorCommand::ToggleFilePicker);
    assert!(matches!(app.left_pane_mode, Some(LeftPaneMode::FilePicker)));
    app.execute_command(&EditorCommand::ToggleFilePicker);
    assert!(app.left_pane_mode.is_none());
    app.execute_command(&EditorCommand::ToggleOutline);
    assert!(matches!(app.left_pane_mode, Some(LeftPaneMode::Outline)));
    app.execute_command(&EditorCommand::ToggleLeftPane);
    assert!(app.left_pane_mode.is_none());
    app.execute_command(&EditorCommand::ToggleRightPane);
    assert!(matches!(app.right_pane_mode, Some(RightPaneMode::Symbols)));
    app.execute_command(&EditorCommand::ToggleSymbols);
    assert!(app.right_pane_mode.is_none());
}

#[test]
fn uninterpreted_commands_change_nothing() {
    let mut app = NotebookApp::default();
    let before_tabs = app.tabs.len();
    app.execute_command(&EditorCommand::Undo);
    app.execute_command(&EditorCommand::DeleteLine);
    app.execute_command(&EditorCommand::Search("x.*y".to_string()));
    // with no cell to edit, text insertion has nothing to do either
    app.execute_command(&EditorCommand::Input("abc".to_string()));
    assert_eq!(app.tabs.len(), before_tabs);
    assert!(!app.tabs[0].is_dirty);
    assert!(!app.leaving);
    assert!(matches!(app.input_mode, InputMode::Normal));
}

#[test]
fn input_inserts_at_the_cursor() {
    let mut app = NotebookApp::default();
    app.tabs[0].content.push_code_cell(vec!["xy".to_string()], None, vec![]);
    app.tabs[0].cursor = Cursor { cell: 0, line: 0, column: 1 };
    app.execute_command(&EditorCommand::Input("ab".to_string()));
    match app.tabs[0].content.cell(0) {
        Cell::Code(cc) => assert_eq!(cc.source, vec!["xaby".to_string()]),
        _ => panic!("expected a code cell"),
    }
    assert!(app.tabs[0].is_dirty);
    // the cursor stands just past the inserted span
    assert_eq!(app.tabs[0].cursor.column, 3);
    // a second insertion continues from there
    app.execute_command(&EditorCommand::Input("!".to_string()));
    match app.tabs[0].content.cell(0) {
        Cell::Code(cc) => assert_eq!(cc.source, vec!["xab!y".to_string()]),
        _ => panic!("expected a code cell"),
    }
    assert_eq!(app.tabs[0].cursor.column, 4);
}

#[test]
fn input_clamps_out_of_range_cursors() {
    let mut app = NotebookApp::default();
    app.tabs[0].content.push_markdown_cell(vec!["hi".to_string()]);
    app.tabs[0].cursor = Cursor { cell: 9, line: 9, column: 9 };
    app.execute_command(&EditorCommand::Input("!".to_string()));
    match app.tabs[0].content.cell(0) {
        Cell::Markdown(mc) => assert_eq!(mc.source, vec!["hi!".to_string()]),
        _ => panic!("expected a markdown cell"),
    }
    assert_eq!(app.tabs[0].cursor.cell, 0);
    assert_eq!(app.tabs[0].cursor.line, 0);
    assert_eq!(app.tabs[0].cursor.column, 3);
}

#[test]
fn input_fills_an_empty_cell() {
    let mut app = NotebookApp::default();
    app.tabs[0].content.push_raw_cell(Vec::new());
    app.execute_command(&EditorCommand::Input("	".to_string()));
    match app.tabs[0].content.cell(0) {
        Cell::Raw(rc) => assert_eq!(rc.source, vec!["	".to_string()]),
        _ => panic!("expected a raw cell"),
    }
    // the cell count did not change
    assert_eq!(app.tabs[0].content.len(), 1);
}

#[test]
fn input_respects_read_only_tabs() {
    let mut app = NotebookApp::default();
    app.tabs[0].content.push_code_cell(vec!["x".to_string()], None, vec![]);
    app.tabs[0].is_read_only = true;
    app.execute_command(&EditorCommand::Input("ab".to_string()));
    match app.tabs[0].content.cell(0) {
        Cell::Code(cc) => assert_eq!(cc.source, vec!["x".to_string()]),
        _ => panic!("expected a code cell"),
    }
    assert!(!app.tabs[0].is_dirty);
}

#[test]
fn keys_translate_then_dispatch() {
    let t = EventTranslator::default();
    let mut app = NotebookApp::default();
    if let Some(cmd) = t.translate_event(ctrl('i'), app.input_mode) {
        app.execute_command(cmd);
    }
    assert!(matches!(app.input_mode, InputMode::Insert));
    if let Some(cmd) = t.translate_event(plain(KeyCode::Esc), app.input_mode) {
        app.execute_command(cmd);
    }
    assert!(matches!(app.input_mode, InputMode::Normal));
    if let Some(cmd) = t.translate_event(ctrl('q'), app.input_mode) {
        app.execute_command(cmd);
    }
    assert!(app.leaving);
}
