//! The state of a session: the configuration, its nodes, the navigation
//! state and the current screen.

use crate::error::CcolError;
use crate::nav::{NavModel, NavigationState};
use crate::nodes::{flat, nodes_view, traverse_json_tree, NavigationNode, NodeModel};
use crate::path::path_components;
use crate::select::{command_at, find_item, is_selected_item_a_leaf};
use crate::tree::{config_of, entries_view, find_node, well_formed, CollectionTree, TreeModel};
use serde_json::Value;
use vstd::prelude::*;
use vstd::string::*;

verus! {

/// Which screen the session shows.
#[derive(Debug, Clone, Copy, PartialEq, Eq, Structural)]
pub enum CurrentScreen {
    /// The menu, open to navigation.
    Main,
    /// The edit popup over the menu.
    Editing,
}

/// The mathematical value of a session's state.
pub struct AppModel {
    pub screen: CurrentScreen,
    pub nav: NavModel,
    pub config: Seq<(Seq<char>, TreeModel)>,
    pub nodes: Seq<NodeModel>,
}

/// The state of a session.
#[derive(Debug)]
pub struct AppState {
    pub current_screen: CurrentScreen,
    pub tree_state: NavigationState,
    /// The entries at the root of the configuration.
    pub config: Vec<(String, CollectionTree)>,
    /// All nodes of the menu, in depth-first order.
    pub tree_items: Vec<NavigationNode>,
}

impl View for AppState {
    type V = AppModel;

    open spec fn view(&self) -> AppModel {
        AppModel {
            screen: self.current_screen,
            nav: self.tree_state@,
            config: entries_view(self.config@),
            nodes: nodes_view(self.tree_items@),
        }
    }
}

impl AppModel {
    /// The nodes are those of the configuration, and no group of the
    /// configuration holds a label twice.
    pub open spec fn well_formed(self) -> bool {
        &&& well_formed(self.config)
        &&& self.nodes == flat(self.config, Seq::empty())
    }
}

impl AppState {
    /// Starts a session on a parsed document: the menu screen, nothing
    /// highlighted, nothing expanded. Fails when the document is no object
    /// or holds something that is neither a string nor an object.
    pub fn new(json: Value) -> (outcome: Result<AppState, CcolError>)
        ensures
            match outcome {
                Ok(app) => {
                    &&& config_of(json) == Some(app@.config)
                    &&& app@.well_formed()
                    &&& app@.screen == CurrentScreen::Main
                    &&& app@.nav.selected == Seq::<Seq<char>>::empty()
                    &&& app@.nav.opened == Set::<Seq<Seq<char>>>::empty()
                },
                Err(error) => config_of(json).is_none() && error is ParseConfigError,
            },
    {
        match CollectionTree::from_value(&json) {
            Ok(CollectionTree::Branch(config)) => Ok(AppState::from_config(config)),
            Ok(CollectionTree::Leaf(_)) => Err(CcolError::ParseConfigError),
            Err(error) => Err(error),
        }
    }

    /// Starts a session on the root entries of a configuration: the menu
    /// screen, nothing highlighted, nothing expanded.
    pub fn from_config(config: Vec<(String, CollectionTree)>) -> (app: AppState)
        ensures
            app@.config == entries_view(config@),
            app@.nodes == flat(app@.config, Seq::empty()),
            app@.screen == CurrentScreen::Main,
            app@.nav.selected == Seq::<Seq<char>>::empty(),
            app@.nav.opened == Set::<Seq<Seq<char>>>::empty(),
    {
        let tree_items = traverse_json_tree(&config, String::new());
        AppState {
            current_screen: CurrentScreen::Main,
            tree_state: NavigationState::new(),
            config,
            tree_items,
        }
    }
}

/// Looks up the label and the command that `identifier` stands for. There
/// is none unless `identifier` belongs to a node without children and its
/// labels lead to a command in the configuration.
pub fn find_command_in_json(identifier: String, app: &AppState) -> (found: Option<(String, String)>)
    ensures
        match found {
            Some((label, command)) => command_at(identifier@, app@.nodes, app@.config) == Some(
                (label@, command@),
            ),
            None => command_at(identifier@, app@.nodes, app@.config).is_none(),
        },
{
    match find_item(identifier.as_str(), &app.tree_items) {
        None => None,
        Some(node) => {
            if !is_selected_item_a_leaf(node) {
                return None;
            }
            let path_components = path_components(identifier.as_str());
            match find_node(path_components.as_slice(), &app.config) {
                Some((key, CollectionTree::Leaf(command))) => Some(
                    (String::from_str(key), command.clone()),
                ),
                _ => None,
            }
        },
    }
}

} // verus!
