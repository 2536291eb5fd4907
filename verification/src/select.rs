//! From a highlighted identifier back to its node and its command.

use crate::nav::NavigationState;
use crate::nodes::{nodes_view, strings_view, NavigationNode, NodeModel};
use crate::path::components;
use crate::tree::{walk, TreeModel};
use vstd::prelude::*;

verus! {

/// The first of `nodes` that carries `identifier`, if one does.
pub open spec fn resolve(identifier: Seq<char>, nodes: Seq<NodeModel>) -> Option<NodeModel>
    decreases nodes.len(),
{
    if nodes.len() == 0 {
        None
    } else if nodes[0].identifier == identifier {
        Some(nodes[0])
    } else {
        resolve(identifier, nodes.drop_first())
    }
}

/// The node that the chain `selected` highlights: the one that carries the
/// chain's last identifier. An empty chain highlights nothing.
pub open spec fn highlighted(selected: Seq<Seq<char>>, nodes: Seq<NodeModel>) -> Option<NodeModel> {
    if selected.len() == 0 {
        None
    } else {
        resolve(selected.last(), nodes)
    }
}

/// The label and the command that `identifier` stands for: `identifier` must
/// belong to a node without children, and walking its labels down `config`
/// must end at a command.
pub open spec fn command_at(
    identifier: Seq<char>,
    nodes: Seq<NodeModel>,
    config: Seq<(Seq<char>, TreeModel)>,
) -> Option<(Seq<char>, Seq<char>)> {
    match resolve(identifier, nodes) {
        Some(node) if node.children.len() == 0 => match walk(config, components(identifier)) {
            Some((label, TreeModel::Leaf(command))) => Some((label, command)),
            _ => None,
        },
        _ => None,
    }
}

/// Finds the first node that carries `identifier`.
pub fn find_item<'a>(identifier: &str, tree_items: &'a Vec<NavigationNode>) -> (found: Option<
    &'a NavigationNode,
>)
    ensures
        match found {
            Some(node) => resolve(identifier@, nodes_view(tree_items@)) == Some(node@),
            None => resolve(identifier@, nodes_view(tree_items@)).is_none(),
        },
{
    let wanted = String::from_str(identifier);
    let ghost all = nodes_view(tree_items@);
    let mut i: usize = 0;
    assert(all.skip(0) =~= all);
    while i < tree_items.len()
        invariant
            i <= tree_items.len(),
            all == nodes_view(tree_items@),
            wanted@ == identifier@,
            resolve(identifier@, all) == resolve(identifier@, all.skip(i as int)),
        decreases tree_items.len() - i,
    {
        if tree_items[i].identifier == wanted {
            return Some(&tree_items[i]);
        }
        assert(all.skip(i as int).drop_first() =~= all.skip(i + 1));
        i += 1;
    }
    None
}

/// Finds the highlighted node among all nodes of the menu.
pub fn get_selected_item<'a>(
    tree_state: &NavigationState,
    tree_items: &'a Vec<NavigationNode>,
) -> (found: Option<&'a NavigationNode>)
    ensures
        match found {
            Some(node) => highlighted(tree_state@.selected, nodes_view(tree_items@)) == Some(
                node@,
            ),
            None => highlighted(tree_state@.selected, nodes_view(tree_items@)).is_none(),
        },
{
    let selected = tree_state.selected();
    if selected.len() == 0 {
        return None;
    }
    let last = &selected[selected.len() - 1];
    assert(strings_view(selected@).last() == last@);
    find_item(last.as_str(), tree_items)
}

/// Tells whether a node has nothing below it.
pub fn is_selected_item_a_leaf(item: &NavigationNode) -> (leaf: bool)
    ensures
        leaf == (item@.children.len() == 0),
{
    item.children.len() == 0
}

} // verus!
