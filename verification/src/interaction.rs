//! The session as a whole: one round of drawing and reacting, and a run of
//! rounds over recorded input.

use crate::render::{lines, render_search_ui, screen, Line, LineView};
use crate::search::search_result;
use crate::session::{
    apply_action, handle_keyboard_event, ActionView, KeyEvent, SearchAction, SearchState,
    StateView,
};
use crate::snapshot::FsNode;
use crate::text::texts;
use vstd::prelude::*;

verus! {

/// What the program around the session has to do after a key press.
#[derive(Clone, Debug, PartialEq, Eq)]
pub enum SessionCommand {
    /// Go on with the next round.
    Continue,
    /// End the session.
    Exit,
    /// Hand the path to the editor, wait for it, then go on.
    OpenEditor(Vec<String>),
}

/// The mathematical content of a `SessionCommand`.
pub enum CommandView {
    Continue,
    Exit,
    OpenEditor(Seq<Seq<char>>),
}

impl View for SessionCommand {
    type V = CommandView;

    open spec fn view(&self) -> CommandView {
        match *self {
            SessionCommand::Continue => CommandView::Continue,
            SessionCommand::Exit => CommandView::Exit,
            SessionCommand::OpenEditor(path) => CommandView::OpenEditor(texts(path@)),
        }
    }
}

/// What one wait for input brought.
#[derive(Clone, Copy, Debug, PartialEq, Eq, Structural)]
pub enum SessionEvent {
    /// Nothing, or something that is no key press.
    Idle,
    /// A key press.
    Key(KeyEvent),
}

/// Something the session did that can be seen from outside.
#[derive(Clone, Debug, PartialEq, Eq)]
pub enum Effect {
    /// The screen was cleared and these lines were drawn.
    Draw(Vec<Line>),
    /// The editor was started on this path.
    Edit(Vec<String>),
}

/// The mathematical content of an `Effect`.
pub enum EffectView {
    Draw(Seq<LineView>),
    Edit(Seq<Seq<char>>),
}

impl View for Effect {
    type V = EffectView;

    open spec fn view(&self) -> EffectView {
        match *self {
            Effect::Draw(frame) => EffectView::Draw(lines(frame@)),
            Effect::Edit(path) => EffectView::Edit(texts(path@)),
        }
    }
}

/// The mathematical content of a list of effects.
pub open spec fn effects(v: Seq<Effect>) -> Seq<EffectView> {
    v.map_values(|e: Effect| e@)
}

/// The record of a session: what it did, the state it reached, and whether
/// it was ended by a key.
#[derive(Clone, Debug, PartialEq, Eq)]
pub struct SessionLog {
    pub effects: Vec<Effect>,
    pub state: SearchState,
    pub exited: bool,
}

/// The mathematical content of a `SessionLog`.
pub struct LogView {
    pub effects: Seq<EffectView>,
    pub state: StateView,
    pub exited: bool,
}

impl View for SessionLog {
    type V = LogView;

    open spec fn view(&self) -> LogView {
        LogView { effects: effects(self.effects@), state: self.state@, exited: self.exited }
    }
}

/// The command that follows from an action.
pub open spec fn command_for(action: ActionView) -> CommandView {
    match action {
        ActionView::Exit => CommandView::Exit,
        ActionView::ClearAndExit => CommandView::Exit,
        ActionView::OpenEditor(path) => CommandView::OpenEditor(path),
        _ => CommandView::Continue,
    }
}

impl StateView {
    /// The state after the key press `key`. Leaving the session changes
    /// nothing; opening the editor only asks for a new drawing, since the
    /// editor takes over the screen; every other action is carried out.
    pub open spec fn reacted(self, key: KeyEvent) -> StateView {
        match self.action_for(key) {
            ActionView::Exit => self,
            ActionView::ClearAndExit => self,
            ActionView::OpenEditor(_) => StateView { needs_redraw: true, ..self },
            action => self.after(action),
        }
    }

    /// The state after the screen was drawn, if it had to be.
    pub open spec fn drawn(self, base_path: Seq<Seq<char>>, tree: FsNode) -> StateView {
        if self.changed() {
            self.refreshed(search_result(self.input, base_path, tree)).rendered()
        } else {
            self
        }
    }
}

impl LogView {
    /// The record of a session that has not begun.
    pub open spec fn start() -> LogView {
        LogView { effects: Seq::empty(), state: StateView::initial(), exited: false }
    }

    /// The record after the screen was drawn, if it had to be. Nothing is
    /// drawn unless the state has changed since the last drawing, and
    /// nothing at all once the session has ended.
    pub open spec fn settled(self, base_path: Seq<Seq<char>>, tree: FsNode) -> LogView {
        if self.exited || !self.state.changed() {
            self
        } else {
            let outcome = search_result(self.state.input, base_path, tree);
            let state = self.state.refreshed(outcome);
            LogView {
                effects: self.effects.push(EffectView::Draw(screen(state, outcome))),
                state: state.rendered(),
                ..self
            }
        }
    }

    /// The record after the event was taken in, without drawing.
    pub open spec fn taken(self, event: SessionEvent) -> LogView {
        if self.exited {
            self
        } else {
            match event {
                SessionEvent::Idle => self,
                SessionEvent::Key(key) => match command_for(self.state.action_for(key)) {
                    CommandView::Continue => LogView { state: self.state.reacted(key), ..self },
                    CommandView::Exit => LogView { exited: true, ..self },
                    CommandView::OpenEditor(path) => LogView {
                        effects: self.effects.push(EffectView::Edit(path)),
                        state: self.state.reacted(key),
                        ..self
                    },
                },
            }
        }
    }

    /// The record after one round: draw if needed, then take the event in.
    pub open spec fn advanced(
        self,
        base_path: Seq<Seq<char>>,
        tree: FsNode,
        event: SessionEvent,
    ) -> LogView {
        self.settled(base_path, tree).taken(event)
    }

    /// The record after one round for each of `events`, in order.
    pub open spec fn replayed(
        self,
        base_path: Seq<Seq<char>>,
        tree: FsNode,
        events: Seq<SessionEvent>,
    ) -> LogView
        decreases events.len(),
    {
        if events.len() == 0 {
            self
        } else {
            self.replayed(base_path, tree, events.drop_last()).advanced(
                base_path,
                tree,
                events.last(),
            )
        }
    }
}

/// Draws the screen if the state has changed since it was last drawn, and
/// records that it now shows the state. Otherwise nothing happens.
pub fn refresh(state: &mut SearchState, base_path: &Vec<String>, tree: &FsNode) -> (res: Option<
    Vec<Line>,
>)
    ensures
        final(state)@ == old(state)@.drawn(texts(base_path@), *tree),
        res is Some == old(state)@.changed(),
        res matches Some(frame) ==> lines(frame@) == screen(
            old(state)@.refreshed(search_result(old(state)@.input, texts(base_path@), *tree)),
            search_result(old(state)@.input, texts(base_path@), *tree),
        ),
        !final(state)@.changed(),
        old(state)@.selection_valid() ==> final(state)@.selection_valid(),
{
    if state.has_changes() {
        let frame = render_search_ui(state, base_path, tree);
        state.mark_rendered();
        Some(frame)
    } else {
        None
    }
}

/// Takes a key press in: decides what it asks for, carries that out on the
/// state, and says what is left to the program around the session.
pub fn react(key: KeyEvent, state: &mut SearchState) -> (res: SessionCommand)
    ensures
        res@ == command_for(old(state)@.action_for(key)),
        final(state)@ == old(state)@.reacted(key),
        old(state)@.selection_valid() ==> final(state)@.selection_valid(),
{
    let action = handle_keyboard_event(key, state);
    match action {
        SearchAction::Exit => SessionCommand::Exit,
        SearchAction::ClearAndExit => SessionCommand::Exit,
        SearchAction::OpenEditor(path) => {
            state.needs_redraw = true;
            SessionCommand::OpenEditor(path)
        },
        other => {
            apply_action(other, state);
            SessionCommand::Continue
        },
    }
}

/// Runs a session over recorded input, against the snapshot `tree` of
/// `base_path`: one round per event, each drawing the screen if it has to
/// and then taking the event in, until a key ends the session or the
/// events run out, in which case the screen is brought up to date once
/// more. The selection stays within the results throughout.
pub fn show_search_results_realtime(
    base_path: &Vec<String>,
    tree: &FsNode,
    events: &Vec<SessionEvent>,
) -> (res: SessionLog)
    ensures
        res@ == LogView::start().replayed(texts(base_path@), *tree, events@).settled(
            texts(base_path@),
            *tree,
        ),
        res@.state.selection_valid(),
{
    let mut state = SearchState::new();
    let mut done: Vec<Effect> = Vec::new();
    let mut should_exit = false;
    let mut i: usize = 0;
    let ghost base = texts(base_path@);
    proof {
        assert(effects(done@) =~= Seq::<EffectView>::empty());
        assert(events@.take(0) =~= Seq::<SessionEvent>::empty());
    }
    while i < events.len()
        invariant
            i <= events.len(),
            base == texts(base_path@),
            state@.selection_valid(),
            (LogView { effects: effects(done@), state: state@, exited: should_exit })
                == LogView::start().replayed(base, *tree, events@.take(i as int)),
        decreases events.len() - i,
    {
        let ghost before = LogView { effects: effects(done@), state: state@, exited: should_exit };
        proof {
            let upto = events@.take(i + 1);
            assert(upto.drop_last() =~= events@.take(i as int));
            assert(upto.last() == events@[i as int]);
        }
        if !should_exit {
            match refresh(&mut state, base_path, tree) {
                Some(frame) => {
                    let drawn = Effect::Draw(frame);
                    proof {
                        assert(effects(done@.push(drawn)) =~= effects(done@).push(drawn@));
                    }
                    done.push(drawn);
                },
                None => {},
            }
            proof {
                assert((LogView { effects: effects(done@), state: state@, exited: should_exit })
                    == before.settled(base, *tree));
            }
            match events[i] {
                SessionEvent::Idle => {},
                SessionEvent::Key(key) => {
                    match react(key, &mut state) {
                        SessionCommand::Continue => {},
                        SessionCommand::Exit => {
                            should_exit = true;
                        },
                        SessionCommand::OpenEditor(path) => {
                            let edit = Effect::Edit(path);
                            proof {
                                assert(effects(done@.push(edit)) =~= effects(done@).push(edit@));
                            }
                            done.push(edit);
                        },
                    }
                },
            }
        }
        i += 1;
    }
    proof {
        assert(events@.take(events.len() as int) =~= events@);
    }
    if !should_exit {
        match refresh(&mut state, base_path, tree) {
            Some(frame) => {
                let drawn = Effect::Draw(frame);
                proof {
                    assert(effects(done@.push(drawn)) =~= effects(done@).push(drawn@));
                }
                done.push(drawn);
            },
            None => {},
        }
    }
    SessionLog { effects: done, state, exited: should_exit }
}

/// No action moves the selection out of the results: at the first result
/// moving up does nothing, at the last one moving down does nothing, and
/// nothing wraps around.
pub proof fn lemma_actions_keep_selection_valid(state: StateView, action: ActionView)
    requires
        state.selection_valid(),
    ensures
        state.after(action).selection_valid(),
        action is MoveUp && state.selected_index == 0 ==> state.after(action) == state,
        action is MoveDown && state.selected_index + 1 >= state.current_results.len()
            ==> state.after(action) == state,
{
}

/// Bringing the results up to date keeps the selection within them, and
/// puts it on the first result whenever the results are replaced.
pub proof fn lemma_refresh_keeps_selection_valid(
    state: StateView,
    outcome: Result<Seq<Seq<Seq<char>>>, crate::search::SearchFailure>,
)
    requires
        state.selection_valid(),
    ensures
        state.refreshed(outcome).selection_valid(),
        state.refreshed(outcome).current_results != state.current_results ==> state.refreshed(
            outcome,
        ).selected_index == 0 || state.refreshed(outcome).current_results.len() == 0,
{
}

/// In every state a session can reach, the selection points at a result
/// wherever there are results.
pub proof fn lemma_session_keeps_selection_valid(
    base_path: Seq<Seq<char>>,
    tree: FsNode,
    events: Seq<SessionEvent>,
)
    ensures
        LogView::start().replayed(base_path, tree, events).state.selection_valid(),
        LogView::start().replayed(base_path, tree, events).settled(
            base_path,
            tree,
        ).state.selection_valid(),
    decreases events.len(),
{
    if events.len() > 0 {
        lemma_session_keeps_selection_valid(base_path, tree, events.drop_last());
        let before = LogView::start().replayed(base_path, tree, events.drop_last());
        let ready = before.settled(base_path, tree);
        match events.last() {
            SessionEvent::Idle => {},
            SessionEvent::Key(key) => {
                lemma_actions_keep_selection_valid(ready.state, ready.state.action_for(key));
            },
        }
    }
}

/// Once a key has ended the session, nothing is drawn, opened or changed
/// any more.
pub proof fn lemma_nothing_after_exit(
    log: LogView,
    base_path: Seq<Seq<char>>,
    tree: FsNode,
    events: Seq<SessionEvent>,
)
    requires
        log.exited,
    ensures
        log.replayed(base_path, tree, events) == log,
        log.settled(base_path, tree) == log,
    decreases events.len(),
{
    if events.len() > 0 {
        lemma_nothing_after_exit(log, base_path, tree, events.drop_last());
    }
}

/// The screen is drawn only when it is out of date: right after a drawing,
/// and for as long as no key changes the state, nothing is drawn again.
pub proof fn lemma_drawn_screen_is_kept(log: LogView, base_path: Seq<Seq<char>>, tree: FsNode)
    ensures
        log.settled(base_path, tree).settled(base_path, tree) == log.settled(base_path, tree),
        log.settled(base_path, tree).advanced(base_path, tree, SessionEvent::Idle) == log.settled(
            base_path,
            tree,
        ),
{
}

} // verus!
