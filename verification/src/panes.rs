use vstd::prelude::*;

verus! {

// ---------------------------------------------------------------------------
// Data carried by the optional panes around the editor.  Their rendering is
// presentation work and lives with the surrounding program; the core only
// holds their state.
// ---------------------------------------------------------------------------

#[derive(Debug, PartialEq)]
pub struct FilePicker {
    pub current_path: String,
    pub selected_file: Option<String>,
}

impl Default for FilePicker {
    fn default() -> (r: Self)
        ensures
            r.current_path@ == Seq::<char>::empty(),
            r.selected_file is None,
    {
        FilePicker { current_path: String::new(), selected_file: None }
    }
}

#[derive(Debug, PartialEq)]
pub struct OutlineItem {
    pub content: String,
    pub relative_tab: usize,
    pub relative_pos: (usize, usize),
}

#[derive(Debug, PartialEq)]
pub struct Outliner {
    pub items: Vec<OutlineItem>,
}

impl Default for Outliner {
    fn default() -> (r: Self)
        ensures
            r.items@.len() == 0,
    {
        Outliner { items: Vec::new() }
    }
}

#[derive(Debug, PartialEq)]
pub struct Variable {
    pub name: String,
    pub value: String,
}

#[derive(Debug, PartialEq)]
pub struct VariablesViewer {
    pub variables: Vec<Variable>,
}

impl Default for VariablesViewer {
    fn default() -> (r: Self)
        ensures
            r.variables@.len() == 0,
    {
        VariablesViewer { variables: Vec::new() }
    }
}

/// A placeholder stateful widget pair for the surrounding interface.
#[derive(Debug, Default, PartialEq)]
pub struct App {}

#[derive(Debug, Default, PartialEq)]
pub struct AppState {}

} // verus!
