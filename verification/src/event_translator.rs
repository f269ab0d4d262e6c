use vstd::prelude::*;

use crate::editor_commands::EditorCommand;
use crate::input_mode::InputMode;
use crate::keys::{InputEvent, KeyCode, KeyModifiers};

verus! {

/// One binding: an exact key and modifier set, and the command it runs.
pub type Binding = (KeyCode, KeyModifiers, EditorCommand);

/// Per-mode binding tables.  Lookup is by exact match on the key and the
/// whole modifier set; the first matching entry of the active mode's table
/// wins, and a key with no entry is ignored.
pub struct EventTranslator {
    pub normal_mode_bindings: Vec<Binding>,
    pub insert_mode_bindings: Vec<Binding>,
    pub visual_mode_bindings: Vec<Binding>,
    pub visual_line_mode_bindings: Vec<Binding>,
    pub visual_block_mode_bindings: Vec<Binding>,
    pub replace_mode_bindings: Vec<Binding>,
    pub command_mode_bindings: Vec<Binding>,
    pub ui_cursor_mode_bindings: Vec<Binding>,
}

/// The first command bound to `(code, mods)` in `tbl`, if any.
pub open spec fn lookup_spec(tbl: Seq<Binding>, code: KeyCode, mods: KeyModifiers) -> Option<
    EditorCommand,
>
    decreases tbl.len(),
{
    if tbl.len() == 0 {
        None
    } else if tbl[0].0 == code && tbl[0].1 == mods {
        Some(tbl[0].2)
    } else {
        lookup_spec(tbl.drop_first(), code, mods)
    }
}

/// The binding table that `mode` consults.
pub open spec fn table_for(t: EventTranslator, mode: InputMode) -> Seq<Binding> {
    match mode {
        InputMode::Normal => t.normal_mode_bindings@,
        InputMode::Insert => t.insert_mode_bindings@,
        InputMode::Visual => t.visual_mode_bindings@,
        InputMode::VisualLine => t.visual_line_mode_bindings@,
        InputMode::VisualBlock => t.visual_block_mode_bindings@,
        InputMode::Replace => t.replace_mode_bindings@,
        InputMode::Command => t.command_mode_bindings@,
        InputMode::UICursor => t.ui_cursor_mode_bindings@,
    }
}

/// What an event translates to under `mode`: a pure function of the tables;
/// translation itself never changes any state.
pub open spec fn translate_spec(t: EventTranslator, event: InputEvent, mode: InputMode) -> Option<
    EditorCommand,
> {
    match event {
        InputEvent::Key(code, mods) => lookup_spec(table_for(t, mode), code, mods),
        InputEvent::Other => None,
    }
}

fn lookup<'a>(tbl: &'a Vec<Binding>, code: KeyCode, mods: KeyModifiers) -> (r: Option<
    &'a EditorCommand,
>)
    ensures
        match r {
            Some(c) => lookup_spec(tbl@, code, mods) == Some(*c),
            None => lookup_spec(tbl@, code, mods) is None,
        },
{
    let mut k: usize = 0;
    assert(tbl@.subrange(0, tbl@.len() as int) =~= tbl@);
    while k < tbl.len()
        invariant
            k <= tbl@.len(),
            lookup_spec(tbl@, code, mods) == lookup_spec(
                tbl@.subrange(k as int, tbl@.len() as int),
                code,
                mods,
            ),
        decreases tbl@.len() - k,
    {
        let ghost suffix = tbl@.subrange(k as int, tbl@.len() as int);
        assert(suffix[0] == tbl@[k as int]);
        if tbl[k].0 == code && tbl[k].1 == mods {
            return Some(&tbl[k].2);
        }
        assert(suffix.drop_first() =~= tbl@.subrange(k as int + 1, tbl@.len() as int));
        k = k + 1;
    }
    assert(tbl@.subrange(tbl@.len() as int, tbl@.len() as int) =~= Seq::<Binding>::empty());
    None
}

impl EventTranslator {
    /// The command `event` runs under `mode`, or nothing when the key is
    /// unbound there.
    pub fn translate_event<'a>(&'a self, event: InputEvent, mode: InputMode) -> (r: Option<
        &'a EditorCommand,
    >)
        ensures
            match r {
                Some(c) => translate_spec(*self, event, mode) == Some(*c),
                None => translate_spec(*self, event, mode) is None,
            },
    {
        match event {
            InputEvent::Key(code, mods) => {
                let tbl = (match mode {
                    InputMode::Normal => &self.normal_mode_bindings,
                    InputMode::Insert => &self.insert_mode_bindings,
                    InputMode::Visual => &self.visual_mode_bindings,
                    InputMode::VisualLine => &self.visual_line_mode_bindings,
                    InputMode::VisualBlock => &self.visual_block_mode_bindings,
                    InputMode::Replace => &self.replace_mode_bindings,
                    InputMode::Command => &self.command_mode_bindings,
                    InputMode::UICursor => &self.ui_cursor_mode_bindings,
                });
                lookup(tbl, code, mods)
            },
            InputEvent::Other => None,
        }
    }
}

impl Default for EventTranslator {
    /// The default configuration: the stock bindings of the Normal and
    /// Insert tables; every other table starts empty.
    fn default() -> (r: Self)
        ensures
            r.normal_mode_bindings@.len() == 8,
            r.normal_mode_bindings@[0] == (
                KeyCode::Char('q'),
                KeyModifiers { shift: false, control: true, alt: false },
                EditorCommand::Quit,
            ),
            r.normal_mode_bindings@[1] == (
                KeyCode::Char('h'),
                KeyModifiers { shift: false, control: true, alt: false },
                EditorCommand::ToLeftPane,
            ),
            r.normal_mode_bindings@[2] == (
                KeyCode::Char('l'),
                KeyModifiers { shift: false, control: true, alt: false },
                EditorCommand::ToRightPane,
            ),
            r.normal_mode_bindings@[3] == (
                KeyCode::Char('j'),
                KeyModifiers { shift: false, control: true, alt: false },
                EditorCommand::ToUpperPane,
            ),
            r.normal_mode_bindings@[4] == (
                KeyCode::Char('k'),
                KeyModifiers { shift: false, control: true, alt: false },
                EditorCommand::ToLowerPane,
            ),
            r.normal_mode_bindings@[5] == (
                KeyCode::Char('i'),
                KeyModifiers { shift: false, control: true, alt: false },
                EditorCommand::SwitchToInsertMode,
            ),
            r.normal_mode_bindings@[6] == (
                KeyCode::Char('V'),
                KeyModifiers { shift: false, control: false, alt: false },
                EditorCommand::SwitchToVisualLineMode,
            ),
            r.normal_mode_bindings@[7] == (
                KeyCode::Char('v'),
                KeyModifiers { shift: false, control: true, alt: false },
                EditorCommand::SwitchToVisualBlockMode,
            ),
            r.insert_mode_bindings@.len() == 4,
            r.insert_mode_bindings@[0].0 == KeyCode::Char('i'),
            r.insert_mode_bindings@[0].1 == (KeyModifiers {
                shift: false,
                control: true,
                alt: false,
            }),
            r.insert_mode_bindings@[0].2 matches EditorCommand::Input(t) && t@ == "\t"@,
            r.insert_mode_bindings@[1] == (
                KeyCode::Char('c'),
                KeyModifiers { shift: false, control: true, alt: false },
                EditorCommand::SwitchToNormalMode,
            ),
            r.insert_mode_bindings@[2] == (
                KeyCode::Char('w'),
                KeyModifiers { shift: false, control: true, alt: false },
                EditorCommand::DeletePreviousWord,
            ),
            r.insert_mode_bindings@[3] == (
                KeyCode::Esc,
                KeyModifiers { shift: false, control: false, alt: false },
                EditorCommand::SwitchToNormalMode,
            ),
            r.visual_mode_bindings@.len() == 0,
            r.visual_line_mode_bindings@.len() == 0,
            r.visual_block_mode_bindings@.len() == 0,
            r.replace_mode_bindings@.len() == 0,
            r.command_mode_bindings@.len() == 0,
            r.ui_cursor_mode_bindings@.len() == 0,
    {
        let ctrl = KeyModifiers::control();
        let plain = KeyModifiers::none();
        let mut normal: Vec<Binding> = Vec::new();
        normal.push((KeyCode::Char('q'), ctrl, EditorCommand::Quit));
        normal.push((KeyCode::Char('h'), ctrl, EditorCommand::ToLeftPane));
        normal.push((KeyCode::Char('l'), ctrl, EditorCommand::ToRightPane));
        normal.push((KeyCode::Char('j'), ctrl, EditorCommand::ToUpperPane));
        normal.push((KeyCode::Char('k'), ctrl, EditorCommand::ToLowerPane));
        normal.push((KeyCode::Char('i'), ctrl, EditorCommand::SwitchToInsertMode));
        normal.push((KeyCode::Char('V'), plain, EditorCommand::SwitchToVisualLineMode));
        normal.push((KeyCode::Char('v'), ctrl, EditorCommand::SwitchToVisualBlockMode));
        let mut insert: Vec<Binding> = Vec::new();
        let tab_text = crate::text_util::string_from_chars(&{
            let mut t: Vec<char> = Vec::new();
            t.push('\t');
            t
        });
        proof {
            reveal_strlit("\t");
            assert(tab_text@ =~= "\t"@);
        }
        insert.push((KeyCode::Char('i'), ctrl, EditorCommand::Input(tab_text)));
        insert.push((KeyCode::Char('c'), ctrl, EditorCommand::SwitchToNormalMode));
        insert.push((KeyCode::Char('w'), ctrl, EditorCommand::DeletePreviousWord));
        insert.push((KeyCode::Esc, plain, EditorCommand::SwitchToNormalMode));
        EventTranslator {
            normal_mode_bindings: normal,
            insert_mode_bindings: insert,
            visual_mode_bindings: Vec::new(),
            visual_line_mode_bindings: Vec::new(),
            visual_block_mode_bindings: Vec::new(),
            replace_mode_bindings: Vec::new(),
            command_mode_bindings: Vec::new(),
            ui_cursor_mode_bindings: Vec::new(),
        }
    }
}

/// Mode isolation: a binding present only in the Insert-mode table yields
/// its command under Insert mode and nothing under Normal mode, for the
/// same key and modifiers.
pub proof fn lemma_mode_isolation(
    t: EventTranslator,
    code: KeyCode,
    mods: KeyModifiers,
    c: EditorCommand,
)
    requires
        lookup_spec(t.normal_mode_bindings@, code, mods) is None,
        lookup_spec(t.insert_mode_bindings@, code, mods) == Some(c),
    ensures
        translate_spec(t, InputEvent::Key(code, mods), InputMode::Normal) is None,
        translate_spec(t, InputEvent::Key(code, mods), InputMode::Insert) == Some(c),
{
}

} // verus!
