//! The interactive search session: its state, the keys it reacts to, and
//! what each key does.

use crate::text::{copy_path, texts};
use crate::traversal::paths;
use vstd::prelude::*;

verus! {

/// The keys the session tells apart.
#[derive(Clone, Copy, Debug, PartialEq, Eq, Structural)]
pub enum KeyCode {
    Char(char),
    Up,
    Down,
    Enter,
    Backspace,
    Esc,
    /// Any other key.
    Other,
}

/// One key press: the key, and whether Control was held.
#[derive(Clone, Copy, Debug, PartialEq, Eq, Structural)]
pub struct KeyEvent {
    pub code: KeyCode,
    pub control: bool,
}

/// What a key press asks the session to do.
#[derive(Clone, Debug, PartialEq, Eq)]
pub enum SearchAction {
    Continue,
    Exit,
    OpenEditor(Vec<String>),
    MoveUp,
    MoveDown,
    AddChar(char),
    DeleteChar,
    ClearAndExit,
}

/// The mathematical content of a `SearchAction`.
pub enum ActionView {
    Continue,
    Exit,
    OpenEditor(Seq<Seq<char>>),
    MoveUp,
    MoveDown,
    AddChar(char),
    DeleteChar,
    ClearAndExit,
}

impl View for SearchAction {
    type V = ActionView;

    open spec fn view(&self) -> ActionView {
        match *self {
            SearchAction::Continue => ActionView::Continue,
            SearchAction::Exit => ActionView::Exit,
            SearchAction::OpenEditor(path) => ActionView::OpenEditor(texts(path@)),
            SearchAction::MoveUp => ActionView::MoveUp,
            SearchAction::MoveDown => ActionView::MoveDown,
            SearchAction::AddChar(c) => ActionView::AddChar(c),
            SearchAction::DeleteChar => ActionView::DeleteChar,
            SearchAction::ClearAndExit => ActionView::ClearAndExit,
        }
    }
}

/// The state of a session. `last_input` and `last_selected` remember what
/// the screen showed when it was last drawn.
#[derive(Clone, Debug, PartialEq, Eq)]
pub struct SearchState {
    pub input: String,
    pub last_input: String,
    pub selected_index: usize,
    pub last_selected: usize,
    pub current_results: Vec<Vec<String>>,
    pub needs_redraw: bool,
}

/// The mathematical content of a `SearchState`.
pub struct StateView {
    pub input: Seq<char>,
    pub last_input: Seq<char>,
    pub selected_index: usize,
    pub last_selected: usize,
    pub current_results: Seq<Seq<Seq<char>>>,
    pub needs_redraw: bool,
}

impl View for SearchState {
    type V = StateView;

    open spec fn view(&self) -> StateView {
        StateView {
            input: self.input@,
            last_input: self.last_input@,
            selected_index: self.selected_index,
            last_selected: self.last_selected,
            current_results: paths(self.current_results@),
            needs_redraw: self.needs_redraw,
        }
    }
}

impl StateView {
    /// The state a session starts in: an empty query, no results, and a
    /// record of the last drawing that no real state agrees with.
    pub open spec fn initial() -> StateView {
        StateView {
            input: Seq::empty(),
            last_input: "__FORCE_DRAW__"@,
            selected_index: 0,
            last_selected: usize::MAX,
            current_results: Seq::empty(),
            needs_redraw: true,
        }
    }

    /// The selection points at a result wherever there are results.
    pub open spec fn selection_valid(self) -> bool {
        self.current_results.len() > 0 ==> self.selected_index < self.current_results.len()
    }

    /// Whether the screen no longer shows this state.
    pub open spec fn changed(self) -> bool {
        self.input != self.last_input || self.selected_index != self.last_selected
            || self.needs_redraw
    }

    /// The state once the screen shows it.
    pub open spec fn rendered(self) -> StateView {
        StateView {
            last_input: self.input,
            last_selected: self.selected_index,
            needs_redraw: false,
            ..self
        }
    }

    /// The action that `key` asks for in this state.
    pub open spec fn action_for(self, key: KeyEvent) -> ActionView {
        match key.code {
            KeyCode::Char(c) => if c == 'c' && key.control {
                ActionView::Exit
            } else {
                ActionView::AddChar(c)
            },
            KeyCode::Up => ActionView::MoveUp,
            KeyCode::Down => ActionView::MoveDown,
            KeyCode::Enter => if self.selected_index < self.current_results.len() {
                ActionView::OpenEditor(self.current_results[self.selected_index as int])
            } else {
                ActionView::Continue
            },
            KeyCode::Backspace => ActionView::DeleteChar,
            KeyCode::Esc => ActionView::ClearAndExit,
            KeyCode::Other => ActionView::Continue,
        }
    }

    /// The state after `action`: the selection moves by one without leaving
    /// the results and without wrapping, the query gains or loses its last
    /// character, and every other action leaves the state alone.
    pub open spec fn after(self, action: ActionView) -> StateView {
        match action {
            ActionView::MoveUp => if self.selected_index > 0 {
                StateView { selected_index: (self.selected_index - 1) as usize, ..self }
            } else {
                self
            },
            ActionView::MoveDown => if self.selected_index + 1 < self.current_results.len() {
                StateView { selected_index: (self.selected_index + 1) as usize, ..self }
            } else {
                self
            },
            ActionView::AddChar(c) => StateView { input: self.input.push(c), ..self },
            ActionView::DeleteChar => if self.input.len() > 0 {
                StateView { input: self.input.drop_last(), ..self }
            } else {
                self
            },
            _ => self,
        }
    }
}

/// The path that `action` hands to the editor, if it is one that does.
pub open spec fn editor_target(action: ActionView) -> Option<Seq<Seq<char>>> {
    match action {
        ActionView::OpenEditor(path) => Some(path),
        _ => None,
    }
}

/// The content of an optional path.
pub open spec fn path_option(p: Option<Vec<String>>) -> Option<Seq<Seq<char>>> {
    match p {
        Some(path) => Some(texts(path@)),
        None => None,
    }
}

impl SearchState {
    /// A fresh session: empty query, no results, and a first drawing owed.
    pub fn new() -> (res: SearchState)
        ensures
            res@ == StateView::initial(),
            res@.selection_valid(),
            res@.changed(),
    {
        let current_results: Vec<Vec<String>> = Vec::new();
        let input = String::new();
        proof {
            assert(paths(current_results@) =~= Seq::<Seq<Seq<char>>>::empty());
            assert(input@ =~= Seq::<char>::empty());
        }
        SearchState {
            input,
            last_input: "__FORCE_DRAW__".to_owned(),
            selected_index: 0,
            last_selected: usize::MAX,
            current_results,
            needs_redraw: true,
        }
    }

    /// Whether the screen has to be drawn again: the query or the selection
    /// differs from what was last drawn, or a drawing was asked for.
    pub fn has_changes(&self) -> (res: bool)
        ensures
            res == self@.changed(),
    {
        !(self.input == self.last_input) || self.selected_index != self.last_selected
            || self.needs_redraw
    }

    /// Records that the screen now shows the state.
    pub fn mark_rendered(&mut self)
        ensures
            final(self)@ == old(self)@.rendered(),
            !final(self)@.changed(),
    {
        self.last_input = self.input.clone();
        self.last_selected = self.selected_index;
        self.needs_redraw = false;
    }
}

/// Decides what `key` asks for. Control-C leaves the session and Escape
/// leaves it too; the arrows move the selection; Enter opens the selected
/// result if there is one; any other character joins the query and
/// Backspace takes its last character away; every other key does nothing.
pub fn handle_keyboard_event(key: KeyEvent, state: &SearchState) -> (res: SearchAction)
    ensures
        res@ == state@.action_for(key),
{
    match key.code {
        KeyCode::Char(c) => {
            if c == 'c' && key.control {
                SearchAction::Exit
            } else {
                SearchAction::AddChar(c)
            }
        },
        KeyCode::Up => SearchAction::MoveUp,
        KeyCode::Down => SearchAction::MoveDown,
        KeyCode::Enter => {
            if !state.current_results.is_empty() && state.selected_index
                < state.current_results.len() {
                SearchAction::OpenEditor(copy_path(&state.current_results[state.selected_index]))
            } else {
                SearchAction::Continue
            }
        },
        KeyCode::Backspace => SearchAction::DeleteChar,
        KeyCode::Esc => SearchAction::ClearAndExit,
        KeyCode::Other => SearchAction::Continue,
    }
}

/// Carries out `action` on the state and returns the path to open, if the
/// action is to open one. A valid selection stays valid.
pub fn apply_action(action: SearchAction, state: &mut SearchState) -> (res: Option<Vec<String>>)
    ensures
        final(state)@ == old(state)@.after(action@),
        path_option(res) == editor_target(action@),
        old(state)@.selection_valid() ==> final(state)@.selection_valid(),
{
    match action {
        SearchAction::MoveUp => {
            if state.selected_index > 0 {
                state.selected_index -= 1;
            }
            None
        },
        SearchAction::MoveDown => {
            let n = state.current_results.len();
            if n > 0 && state.selected_index < n - 1 {
                state.selected_index += 1;
            }
            None
        },
        SearchAction::AddChar(c) => {
            state.input.push(c);
            None
        },
        SearchAction::DeleteChar => {
            state.input.pop();
            None
        },
        SearchAction::OpenEditor(path) => Some(path),
        _ => None,
    }
}

} // verus!
