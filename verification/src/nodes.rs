//! Navigation nodes: the configuration tree laid out as an ordered list in
//! which every node carries the identifier that addresses it.

use crate::error::CcolError;
use crate::path::{child_path, extend_path};
use crate::tree::{config_of, entries_view, CollectionTree, TreeModel};
use serde_json::Value;
use vstd::prelude::*;
use vstd::string::*;

verus! {

/// The mathematical value of a navigation node.
pub struct NodeModel {
    pub identifier: Seq<char>,
    pub label: Seq<char>,
    pub display_text: Seq<char>,
    pub children: Seq<Seq<char>>,
}

/// One line of the menu.
#[derive(Debug, PartialEq, Eq)]
pub struct NavigationNode {
    /// The slash-delimited path from the root to this node.
    pub identifier: String,
    /// The last label of that path.
    pub label: String,
    /// What the menu shows: `label: command` for a command, the label alone
    /// for a group.
    pub display_text: String,
    /// The identifiers of the nodes directly below, in order.
    pub children: Vec<String>,
}

/// The texts of a sequence of strings.
pub open spec fn strings_view(strings: Seq<String>) -> Seq<Seq<char>> {
    Seq::new(strings.len(), |i: int| strings[i]@)
}

impl View for NavigationNode {
    type V = NodeModel;

    open spec fn view(&self) -> NodeModel {
        NodeModel {
            identifier: self.identifier@,
            label: self.label@,
            display_text: self.display_text@,
            children: strings_view(self.children@),
        }
    }
}

/// The models of a sequence of nodes.
pub open spec fn nodes_view(nodes: Seq<NavigationNode>) -> Seq<NodeModel> {
    Seq::new(nodes.len(), |i: int| nodes[i]@)
}

/// What the menu shows for `tree` stored under `label`.
pub open spec fn display_of(label: Seq<char>, tree: TreeModel) -> Seq<char> {
    match tree {
        TreeModel::Leaf(command) => label + seq![':', ' '] + command,
        TreeModel::Branch(_) => label,
    }
}

/// The identifiers of the nodes directly below the node `identifier` that
/// stands for `tree`.
pub open spec fn children_of(identifier: Seq<char>, tree: TreeModel) -> Seq<Seq<char>> {
    match tree {
        TreeModel::Leaf(_) => Seq::empty(),
        TreeModel::Branch(children) => Seq::new(
            children.len(),
            |i: int| child_path(identifier, children[i].0),
        ),
    }
}

/// The node that stands for `tree`, stored under `label` in the group
/// addressed by `prefix`.
pub open spec fn node_of(prefix: Seq<char>, label: Seq<char>, tree: TreeModel) -> NodeModel {
    NodeModel {
        identifier: child_path(prefix, label),
        label,
        display_text: display_of(label, tree),
        children: children_of(child_path(prefix, label), tree),
    }
}

/// The nodes of `entries` in depth-first order: each entry's own node, at
/// once followed by the nodes of what lies below it.
pub open spec fn flat(entries: Seq<(Seq<char>, TreeModel)>, prefix: Seq<char>) -> Seq<NodeModel>
    decreases entries,
{
    if entries.len() == 0 {
        Seq::empty()
    } else {
        let (label, tree) = entries.last();
        let below = match tree {
            TreeModel::Branch(children) => flat(children, child_path(prefix, label)),
            TreeModel::Leaf(_) => Seq::empty(),
        };
        flat(entries.drop_last(), prefix).push(node_of(prefix, label, tree)) + below
    }
}

/// Lists the identifiers of the children of the group addressed by `path`.
fn child_identifiers(children: &Vec<(String, CollectionTree)>, path: &String) -> (identifiers: Vec<
    String,
>)
    ensures
        strings_view(identifiers@) == children_of(
            path@,
            TreeModel::Branch(entries_view(children@)),
        ),
{
    let mut identifiers: Vec<String> = Vec::new();
    let mut i: usize = 0;
    while i < children.len()
        invariant
            i <= children.len(),
            identifiers@.len() == i,
            forall|k: int|
                0 <= k < i ==> (#[trigger] identifiers@[k])@ == child_path(path@, children@[k].0@),
        decreases children.len() - i,
    {
        identifiers.push(extend_path(path.as_str(), children[i].0.as_str()));
        i += 1;
    }
    assert(strings_view(identifiers@) =~= children_of(
        path@,
        TreeModel::Branch(entries_view(children@)),
    ));
    identifiers
}

/// Flattens the group `map`, whose own identifier is `path`, into its
/// navigation nodes.
pub fn traverse_json_tree(map: &Vec<(String, CollectionTree)>, path: String) -> (items: Vec<
    NavigationNode,
>)
    ensures
        nodes_view(items@) == flat(entries_view(map@), path@),
    decreases map,
{
    proof {
        reveal_strlit(": ");
    }
    let ghost entries = entries_view(map@);
    let mut items: Vec<NavigationNode> = Vec::new();
    let mut i: usize = 0;
    assert(nodes_view(items@) =~= flat(entries.take(0), path@));
    while i < map.len()
        invariant
            i <= map.len(),
            entries == entries_view(map@),
            ": "@ == seq![':', ' '],
            nodes_view(items@) == flat(entries.take(i as int), path@),
        decreases map.len() - i,
    {
        let key = &map[i].0;
        let subtree = &map[i].1;
        let new_path = extend_path(path.as_str(), key.as_str());
        let ghost seen = entries.take(i as int);
        let ghost more = entries.take(i + 1);
        let ghost before = nodes_view(items@);
        assert(more.drop_last() =~= seen);
        assert(more.last() == (key@, subtree@));
        match subtree {
            CollectionTree::Leaf(command) => {
                let display_text = key.clone().concat(": ").concat(command.as_str());
                assert(display_text@ =~= display_of(key@, subtree@));
                let node = NavigationNode {
                    identifier: new_path,
                    label: key.clone(),
                    display_text,
                    children: Vec::new(),
                };
                assert(node@.children =~= children_of(child_path(path@, key@), subtree@));
                assert(node@ == node_of(path@, key@, subtree@));
                items.push(node);
                assert(nodes_view(items@) =~= before.push(node_of(path@, key@, subtree@))
                    + Seq::empty());
            },
            CollectionTree::Branch(children) => {
                let node = NavigationNode {
                    identifier: new_path.clone(),
                    label: key.clone(),
                    display_text: key.clone(),
                    children: child_identifiers(children, &new_path),
                };
                assert(node@ == node_of(path@, key@, subtree@));
                let mut below = traverse_json_tree(children, new_path);
                let ghost lower = nodes_view(below@);
                items.push(node);
                items.append(&mut below);
                assert(nodes_view(items@) =~= before.push(node_of(path@, key@, subtree@)) + lower);
            },
        }
        i += 1;
    }
    assert(entries.take(map.len() as int) =~= entries);
    items
}

/// Flattens a parsed document into its navigation nodes. Fails when the
/// document is no object or holds something that is neither a string nor an
/// object.
pub fn tree_items(root: Value) -> (outcome: Result<Vec<NavigationNode>, CcolError>)
    ensures
        match outcome {
            Ok(items) => config_of(root) is Some && nodes_view(items@) == flat(
                config_of(root)->0,
                Seq::empty(),
            ),
            Err(error) => config_of(root).is_none() && error is ParseConfigError,
        },
{
    match CollectionTree::from_value(&root) {
        Ok(CollectionTree::Branch(entries)) => Ok(traverse_json_tree(&entries, String::new())),
        Ok(CollectionTree::Leaf(_)) => Err(CcolError::ParseConfigError),
        Err(error) => Err(error),
    }
}

} // verus!
