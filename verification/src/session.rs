//! The interaction: how a key changes the state of a session, and when the
//! session ends.

use crate::nav::{
    chains_view, clone_chain, moved_down, moved_up, toggled, visible, visible_chains, NavModel,
};
use crate::nodes::strings_view;
use crate::select::{command_at, get_selected_item, highlighted, is_selected_item_a_leaf};
use crate::store::{find_command_in_json, AppModel, AppState, CurrentScreen};
use vstd::prelude::*;

verus! {

/// The key that an event is about.
#[derive(Debug, Clone, Copy, PartialEq, Eq, Structural)]
pub enum KeyCode {
    Up,
    Down,
    Left,
    Right,
    Enter,
    Esc,
    Char(char),
    /// Any key that the menu has no use for.
    Other,
}

/// What happened to the key.
#[derive(Debug, Clone, Copy, PartialEq, Eq, Structural)]
pub enum KeyEventKind {
    Press,
    Repeat,
    Release,
}

/// One event from the keyboard.
#[derive(Debug, Clone, Copy, PartialEq, Eq, Structural)]
pub struct KeyEvent {
    pub code: KeyCode,
    pub kind: KeyEventKind,
}

/// The mathematical value of an `Action`.
pub enum ActionModel {
    Continue,
    Quit,
    Commit(Seq<char>),
}

/// What the caller's loop does after a key.
#[derive(Debug, PartialEq, Eq)]
pub enum Action {
    /// Draw the state and wait for the next key.
    Continue,
    /// End the session without a selection.
    Quit,
    /// End the session; the identifier is that of the selected command.
    Commit(String),
}

impl View for Action {
    type V = ActionModel;

    open spec fn view(&self) -> ActionModel {
        match self {
            Action::Continue => ActionModel::Continue,
            Action::Quit => ActionModel::Quit,
            Action::Commit(identifier) => ActionModel::Commit(identifier@),
        }
    }
}

/// What a key means on the menu screen.
#[derive(Debug, Clone, Copy, PartialEq, Eq, Structural)]
pub enum Command {
    MoveUp,
    MoveDown,
    Expand,
    Collapse,
    Activate,
    Edit,
    Quit,
    Nothing,
}

/// The bindings of the menu screen.
pub open spec fn binding(code: KeyCode) -> Command {
    match code {
        KeyCode::Up => Command::MoveUp,
        KeyCode::Down => Command::MoveDown,
        KeyCode::Right => Command::Expand,
        KeyCode::Left => Command::Collapse,
        KeyCode::Enter => Command::Activate,
        KeyCode::Esc => Command::Quit,
        KeyCode::Char(c) => if c == 'k' {
            Command::MoveUp
        } else if c == 'j' {
            Command::MoveDown
        } else if c == 'l' {
            Command::Expand
        } else if c == 'h' {
            Command::Collapse
        } else if c == 'e' {
            Command::Edit
        } else if c == 'q' {
            Command::Quit
        } else {
            Command::Nothing
        },
        KeyCode::Other => Command::Nothing,
    }
}

/// Looks up what a key means on the menu screen.
pub fn bound_command(code: KeyCode) -> (command: Command)
    ensures
        command == binding(code),
{
    match code {
        KeyCode::Up => Command::MoveUp,
        KeyCode::Down => Command::MoveDown,
        KeyCode::Right => Command::Expand,
        KeyCode::Left => Command::Collapse,
        KeyCode::Enter => Command::Activate,
        KeyCode::Esc => Command::Quit,
        KeyCode::Char(c) => if c == 'k' {
            Command::MoveUp
        } else if c == 'j' {
            Command::MoveDown
        } else if c == 'l' {
            Command::Expand
        } else if c == 'h' {
            Command::Collapse
        } else if c == 'e' {
            Command::Edit
        } else if c == 'q' {
            Command::Quit
        } else {
            Command::Nothing
        },
        KeyCode::Other => Command::Nothing,
    }
}

impl AppModel {
    /// The chains of the nodes on screen, top to bottom.
    pub open spec fn shown(self) -> Seq<Seq<Seq<char>>> {
        visible(self.config, Seq::empty(), Seq::empty(), self.nav.opened)
    }

    /// Whether a group is highlighted: a node with something below it.
    pub open spec fn on_group(self) -> bool {
        match highlighted(self.nav.selected, self.nodes) {
            Some(node) => node.children.len() > 0,
            None => false,
        }
    }

    /// The identifier that the Enter key commits: that of the highlighted
    /// node, if it has nothing below it and stands for a command.
    pub open spec fn committed(self) -> Option<Seq<char>> {
        match highlighted(self.nav.selected, self.nodes) {
            Some(node) if node.children.len() == 0 && command_at(
                node.identifier,
                self.nodes,
                self.config,
            ) is Some => Some(node.identifier),
            _ => None,
        }
    }

    /// What the edit popup is about: on the edit screen, the label and the
    /// command of the highlighted node, if it stands for a command.
    pub open spec fn edit_target(self) -> Option<(Seq<char>, Seq<char>)> {
        match (self.screen, highlighted(self.nav.selected, self.nodes)) {
            (CurrentScreen::Editing, Some(node)) => command_at(
                node.identifier,
                self.nodes,
                self.config,
            ),
            _ => None,
        }
    }

    /// The state with another highlight.
    pub open spec fn with_selected(self, selected: Seq<Seq<char>>) -> AppModel {
        AppModel { nav: NavModel { selected, ..self.nav }, ..self }
    }

    /// The state with another set of expanded nodes.
    pub open spec fn with_opened(self, opened: Set<Seq<Seq<char>>>) -> AppModel {
        AppModel { nav: NavModel { opened, ..self.nav }, ..self }
    }

    /// The state and the action after `command` on the menu screen.
    pub open spec fn apply(self, command: Command) -> (AppModel, ActionModel) {
        match command {
            Command::MoveUp => (
                self.with_selected(moved_up(self.shown(), self.nav.selected)),
                ActionModel::Continue,
            ),
            Command::MoveDown => (
                self.with_selected(moved_down(self.shown(), self.nav.selected)),
                ActionModel::Continue,
            ),
            Command::Expand => if self.on_group() {
                (self.with_opened(self.nav.opened.insert(self.nav.selected)), ActionModel::Continue)
            } else {
                (self, ActionModel::Continue)
            },
            Command::Collapse => if self.on_group() {
                (self.with_opened(self.nav.opened.remove(self.nav.selected)), ActionModel::Continue)
            } else {
                (self, ActionModel::Continue)
            },
            Command::Activate => if self.on_group() {
                (
                    self.with_opened(toggled(self.nav.opened, self.nav.selected)),
                    ActionModel::Continue,
                )
            } else {
                match self.committed() {
                    Some(identifier) => (self, ActionModel::Commit(identifier)),
                    None => (self, ActionModel::Continue),
                }
            },
            Command::Edit => (
                AppModel { screen: CurrentScreen::Editing, ..self },
                ActionModel::Continue,
            ),
            Command::Quit => (self, ActionModel::Quit),
            Command::Nothing => (self, ActionModel::Continue),
        }
    }

    /// The state and the action after one event from the keyboard. A key
    /// that is let go changes nothing. On the edit screen only Esc counts,
    /// which leads back to the menu.
    pub open spec fn step(self, event: KeyEvent) -> (AppModel, ActionModel) {
        if event.kind == KeyEventKind::Release {
            (self, ActionModel::Continue)
        } else {
            match self.screen {
                CurrentScreen::Main => self.apply(binding(event.code)),
                CurrentScreen::Editing => if event.code == KeyCode::Esc {
                    (AppModel { screen: CurrentScreen::Main, ..self }, ActionModel::Continue)
                } else {
                    (self, ActionModel::Continue)
                },
            }
        }
    }

    /// The state and the outcome after the events are handled in turn, up to
    /// the first that ends the session: the committed identifier, or nothing
    /// after a quit or when the events run out.
    pub open spec fn run(self, events: Seq<KeyEvent>) -> (AppModel, Option<Seq<char>>)
        decreases events.len(),
    {
        if events.len() == 0 {
            (self, None)
        } else {
            let (next, action) = self.step(events[0]);
            match action {
                ActionModel::Continue => next.run(events.drop_first()),
                ActionModel::Quit => (next, None),
                ActionModel::Commit(identifier) => (next, Some(identifier)),
            }
        }
    }
}

impl AppState {
    /// Lists the chains of the nodes on screen, top to bottom.
    pub fn shown(&self) -> (chains: Vec<Vec<String>>)
        ensures
            chains_view(chains@) == self@.shown(),
    {
        let top: Vec<String> = Vec::new();
        assert(strings_view(top@) =~= Seq::empty());
        visible_chains(&self.config, &String::new(), &top, &self.tree_state)
    }

    /// Tells whether a group is highlighted.
    fn on_group(&self) -> (group: bool)
        ensures
            group == self@.on_group(),
    {
        match get_selected_item(&self.tree_state, &self.tree_items) {
            Some(node) => !is_selected_item_a_leaf(node),
            None => false,
        }
    }

    /// Looks up what the edit popup is about: on the edit screen, the label
    /// and the command of the highlighted node, if it stands for a command.
    pub fn edit_target(&self) -> (target: Option<(String, String)>)
        ensures
            match target {
                Some((label, command)) => self@.edit_target() == Some((label@, command@)),
                None => self@.edit_target().is_none(),
            },
    {
        match self.current_screen {
            CurrentScreen::Main => None,
            CurrentScreen::Editing => match get_selected_item(
                &self.tree_state,
                &self.tree_items,
            ) {
                Some(node) => find_command_in_json(node.identifier.clone(), self),
                None => None,
            },
        }
    }

    /// Carries out `command` on the menu screen.
    pub fn apply(&mut self, command: Command) -> (action: Action)
        ensures
            (final(self)@, action@) == old(self)@.apply(command),
    {
        match command {
            Command::MoveUp => {
                let shown = self.shown();
                self.tree_state.key_up(&shown);
                Action::Continue
            },
            Command::MoveDown => {
                let shown = self.shown();
                self.tree_state.key_down(&shown);
                Action::Continue
            },
            Command::Expand => {
                if self.on_group() {
                    let chain = clone_chain(self.tree_state.selected());
                    self.tree_state.open(chain);
                }
                Action::Continue
            },
            Command::Collapse => {
                if self.on_group() {
                    let chain = clone_chain(self.tree_state.selected());
                    self.tree_state.close(&chain);
                }
                Action::Continue
            },
            Command::Activate => {
                match get_selected_item(&self.tree_state, &self.tree_items) {
                    None => Action::Continue,
                    Some(node) => {
                        if is_selected_item_a_leaf(node) {
                            let identifier = node.identifier.clone();
                            match find_command_in_json(identifier.clone(), self) {
                                Some(_) => Action::Commit(identifier),
                                None => Action::Continue,
                            }
                        } else {
                            self.tree_state.toggle_selected();
                            Action::Continue
                        }
                    },
                }
            },
            Command::Edit => {
                self.current_screen = CurrentScreen::Editing;
                Action::Continue
            },
            Command::Quit => Action::Quit,
            Command::Nothing => Action::Continue,
        }
    }

    /// Handles one event from the keyboard and says what the loop does next.
    pub fn handle_key(&mut self, event: KeyEvent) -> (action: Action)
        ensures
            (final(self)@, action@) == old(self)@.step(event),
    {
        match event.kind {
            KeyEventKind::Release => Action::Continue,
            _ => match self.current_screen {
                CurrentScreen::Main => self.apply(bound_command(event.code)),
                CurrentScreen::Editing => {
                    match event.code {
                        KeyCode::Esc => {
                            self.current_screen = CurrentScreen::Main;
                        },
                        _ => {},
                    }
                    Action::Continue
                },
            },
        }
    }
}

/// Handles the events in turn, up to the first that ends the session.
/// Returns the identifier of the committed command, or nothing after a quit
/// or when the events run out.
pub fn run_app(app: &mut AppState, events: &Vec<KeyEvent>) -> (output: Option<String>)
    ensures
        final(app)@ == old(app)@.run(events@).0,
        match output {
            Some(identifier) => old(app)@.run(events@).1 == Some(identifier@),
            None => old(app)@.run(events@).1.is_none(),
        },
{
    let mut i: usize = 0;
    assert(events@.skip(0) =~= events@);
    while i < events.len()
        invariant
            i <= events.len(),
            old(app)@.run(events@) == app@.run(events@.skip(i as int)),
        decreases events.len() - i,
    {
        assert(events@.skip(i as int).drop_first() =~= events@.skip(i + 1));
        assert(events@.skip(i as int)[0] == events@[i as int]);
        match app.handle_key(events[i]) {
            Action::Continue => {},
            Action::Quit => {
                return None;
            },
            Action::Commit(identifier) => {
                return Some(identifier);
            },
        }
        i += 1;
    }
    None
}

} // verus!
