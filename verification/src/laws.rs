//! What holds of every configuration: identifiers are unique, lead back to
//! their nodes, and resolve to the commands they stand for.

use crate::nav::{lemma_position, toggled, visible};
use crate::nodes::{children_of, display_of, flat, node_of, NodeModel};
use crate::path::{
    child_path, components, lemma_split_child, lemma_split_label, lemma_split_leading_slash,
    lemma_split_nonempty, separator, slash_free, split_path, trim_slashes,
};
use crate::select::{command_at, resolve};
use crate::session::{ActionModel, Command, KeyEvent};
use crate::store::AppModel;
use crate::tree::{
    addressable, lemma_lookup_at, lemma_lookup_found, lemma_walk_drop_last,
    lemma_walk_no_empty_groups, lookup, no_empty_groups, slash_free_labels, walk, well_formed,
    TreeModel,
};
use vstd::prelude::*;

verus! {

/// `node` is the node of `tree` stored under `label`: it shows the label,
/// the text of the tree, and the identifiers of the tree's children.
pub open spec fn describes(node: NodeModel, label: Seq<char>, tree: TreeModel) -> bool {
    &&& node.label == label
    &&& node.display_text == display_of(label, tree)
    &&& node.children == children_of(node.identifier, tree)
}

/// What follows `prefix` and a slash in `identifier`.
pub open spec fn below_prefix(prefix: Seq<char>, identifier: Seq<char>) -> Seq<char> {
    identifier.skip(prefix.len() as int + 1)
}

/// `node` lies under `prefix`, and the labels after the prefix lead from
/// `entries` to the tree that the node describes.
pub open spec fn reached_from(
    entries: Seq<(Seq<char>, TreeModel)>,
    prefix: Seq<char>,
    node: NodeModel,
) -> bool {
    let rest = below_prefix(prefix, node.identifier);
    &&& node.identifier == prefix.push(separator()) + rest
    &&& match walk(entries, split_path(rest)) {
        Some((label, tree)) => describes(node, label, tree),
        None => false,
    }
}

/// The entries but the last keep what holds of all entries.
proof fn lemma_front(entries: Seq<(Seq<char>, TreeModel)>)
    requires
        entries.len() > 0,
    ensures
        well_formed(entries) ==> well_formed(entries.drop_last()),
        slash_free_labels(entries) ==> slash_free_labels(entries.drop_last()),
{
    let front = entries.drop_last();
    assert forall|i: int| 0 <= i < front.len() implies (#[trigger] front[i]) == entries[i] by {}
    if well_formed(entries) {
        assert forall|i: int, j: int| 0 <= i < j < front.len() implies (#[trigger] front[i]).0 != (
        #[trigger] front[j]).0 by {
            assert(front[i] == entries[i]);
            assert(front[j] == entries[j]);
        }
        assert forall|i: int| 0 <= i < front.len() implies match (#[trigger] front[i]).1 {
            TreeModel::Leaf(_) => true,
            TreeModel::Branch(children) => well_formed(children),
        } by {
            assert(front[i] == entries[i]);
        }
    }
    if slash_free_labels(entries) {
        assert forall|i: int| 0 <= i < front.len() implies slash_free(
            (#[trigger] front[i]).0,
        ) && match front[i].1 {
            TreeModel::Leaf(_) => true,
            TreeModel::Branch(children) => slash_free_labels(children),
        } by {
            assert(front[i] == entries[i]);
        }
    }
}

/// Every node of a flattened group lies under the group's identifier, and
/// its remaining labels lead from the group to the tree it describes. A node
/// that stems from the last entry begins with that entry's label.
pub proof fn lemma_flat_reached(entries: Seq<(Seq<char>, TreeModel)>, prefix: Seq<char>, at: int)
    requires
        well_formed(entries),
        slash_free_labels(entries),
        0 <= at < flat(entries, prefix).len(),
    ensures
        reached_from(entries, prefix, flat(entries, prefix)[at]),
        entries.len() > 0,
        at >= flat(entries.drop_last(), prefix).len() ==> split_path(
            below_prefix(prefix, flat(entries, prefix)[at].identifier),
        )[0] == entries.last().0,
    decreases entries,
{
    let front = entries.drop_last();
    let (label, tree) = entries.last();
    let head = flat(front, prefix);
    let own = child_path(prefix, label);
    let node = flat(entries, prefix)[at];
    lemma_front(entries);
    assert(slash_free(label));
    if at < head.len() {
        lemma_flat_reached(front, prefix, at);
        assert(node == head[at]);
        lemma_walk_drop_last(entries, split_path(below_prefix(prefix, node.identifier)));
    } else if at == head.len() {
        assert(node == node_of(prefix, label, tree));
        assert(below_prefix(prefix, own) =~= label);
        assert(own =~= prefix.push(separator()) + label);
        lemma_split_label(label);
        lemma_lookup_at(entries, entries.len() - 1);
    } else {
        match tree {
            TreeModel::Leaf(_) => {},
            TreeModel::Branch(children) => {
                let inner = at - head.len() - 1;
                assert(node == flat(children, own)[inner]);
                lemma_flat_reached(children, own, inner);
                let deeper = below_prefix(own, node.identifier);
                let rest = below_prefix(prefix, node.identifier);
                assert(rest =~= label.push(separator()) + deeper);
                assert(node.identifier =~= prefix.push(separator()) + rest);
                lemma_split_child(label, deeper);
                lemma_split_nonempty(deeper);
                let parts = split_path(rest);
                assert(parts[0] == label);
                assert(parts.drop_first() =~= split_path(deeper));
                lemma_lookup_at(entries, entries.len() - 1);
            },
        }
    }
}

/// Two nodes at different places of a flattened group differ in their
/// identifiers.
proof fn lemma_flat_distinct_at(
    entries: Seq<(Seq<char>, TreeModel)>,
    prefix: Seq<char>,
    first: int,
    second: int,
)
    requires
        well_formed(entries),
        slash_free_labels(entries),
        0 <= first < second < flat(entries, prefix).len(),
    ensures
        flat(entries, prefix)[first].identifier != flat(entries, prefix)[second].identifier,
    decreases entries,
{
    let front = entries.drop_last();
    let (label, tree) = entries.last();
    let head = flat(front, prefix);
    let own = child_path(prefix, label);
    let nodes = flat(entries, prefix);
    lemma_front(entries);
    if second < head.len() {
        lemma_flat_distinct_at(front, prefix, first, second);
    } else if first < head.len() {
        lemma_flat_reached(front, prefix, first);
        lemma_flat_reached(entries, prefix, second);
        assert(nodes[first] == head[first]);
        if nodes[first].identifier == nodes[second].identifier {
            let parts = split_path(below_prefix(prefix, nodes[first].identifier));
            assert(parts[0] == label);
            assert(lookup(front, label) is Some);
            lemma_lookup_found(front, label);
            let found = lookup(front, label)->0;
            let i = choose|i: int| 0 <= i < front.len() && front[i] == (label, found);
            assert(entries[i] == front[i]);
            assert(entries[entries.len() - 1].0 == label);
            assert(false);
        }
    } else {
        match tree {
            TreeModel::Leaf(_) => {},
            TreeModel::Branch(children) => {
                let inner = second - head.len() - 1;
                assert(nodes[second] == flat(children, own)[inner]);
                if first == head.len() {
                    lemma_flat_reached(children, own, inner);
                    assert(nodes[first].identifier == own);
                    assert(nodes[second].identifier.len() > own.len());
                } else {
                    assert(nodes[first] == flat(children, own)[first - head.len() - 1]);
                    lemma_flat_distinct_at(children, own, first - head.len() - 1, inner);
                }
            },
        }
    }
}

/// The identifiers of `nodes` are pairwise distinct.
pub open spec fn identifiers_distinct(nodes: Seq<NodeModel>) -> bool {
    forall|i: int, j: int|
        0 <= i < j < nodes.len() ==> (#[trigger] nodes[i]).identifier != (
        #[trigger] nodes[j]).identifier
}

/// `identifier` belongs to one of `nodes`.
pub open spec fn is_identifier(identifier: Seq<char>, nodes: Seq<NodeModel>) -> bool {
    exists|i: int| 0 <= i < nodes.len() && (#[trigger] nodes[i]).identifier == identifier
}

/// Uniqueness: the nodes of a configuration whose groups hold no label
/// twice and whose labels hold no slash have pairwise distinct identifiers,
/// whatever prefix they are flattened under.
pub proof fn lemma_identifiers_unique(entries: Seq<(Seq<char>, TreeModel)>, prefix: Seq<char>)
    requires
        well_formed(entries),
        slash_free_labels(entries),
    ensures
        identifiers_distinct(flat(entries, prefix)),
{
    let nodes = flat(entries, prefix);
    assert forall|i: int, j: int| 0 <= i < j < nodes.len() implies (#[trigger] nodes[i]).identifier
        != (#[trigger] nodes[j]).identifier by {
        lemma_flat_distinct_at(entries, prefix, i, j);
    }
}

/// Path fidelity: walking the labels of a node's identifier down from the
/// root ends at the tree that the node describes.
pub proof fn lemma_path_fidelity(config: Seq<(Seq<char>, TreeModel)>, at: int)
    requires
        well_formed(config),
        addressable(config),
        0 <= at < flat(config, Seq::empty()).len(),
    ensures
        match walk(config, components(flat(config, Seq::empty())[at].identifier)) {
            Some((label, tree)) => describes(flat(config, Seq::empty())[at], label, tree),
            None => false,
        },
{
    let prefix = Seq::<char>::empty();
    let node = flat(config, prefix)[at];
    lemma_flat_reached(config, prefix, at);
    let rest = below_prefix(prefix, node.identifier);
    let parts = split_path(rest);
    assert(node.identifier.len() > 0 && node.identifier[0] == separator());
    assert(node.identifier.drop_first() =~= rest);
    assert(trim_slashes(node.identifier) == trim_slashes(rest));
    lemma_split_nonempty(rest);
    if rest.len() > 0 && rest[0] == separator() {
        lemma_split_leading_slash(rest);
        lemma_lookup_found(config, parts[0]);
        let top = lookup(config, parts[0])->0;
        let i = choose|i: int| 0 <= i < config.len() && config[i] == (parts[0], top);
        assert(config[i].1.childless());
        match top {
            TreeModel::Leaf(_) => {},
            TreeModel::Branch(children) => {
                let deeper = parts.drop_first();
                assert(deeper.len() > 0);
                assert(children.len() == 0);
                assert(lookup(children, deeper[0]).is_none());
                assert(walk(children, deeper).is_none());
            },
        }
        assert(walk(config, parts).is_none());
        assert(false);
    }
    assert(trim_slashes(rest) == rest);
}

/// Leaf and children coherence: in a configuration without empty groups a
/// node has no children exactly if its identifier leads to a command.
pub proof fn lemma_leaf_coherence(config: Seq<(Seq<char>, TreeModel)>, at: int)
    requires
        well_formed(config),
        addressable(config),
        no_empty_groups(config),
        0 <= at < flat(config, Seq::empty()).len(),
    ensures
        flat(config, Seq::empty())[at].children.len() == 0 <==> (match walk(
            config,
            components(flat(config, Seq::empty())[at].identifier),
        ) {
            Some((_, TreeModel::Leaf(_))) => true,
            _ => false,
        }),
{
    let node = flat(config, Seq::empty())[at];
    lemma_path_fidelity(config, at);
    lemma_walk_no_empty_groups(config, components(node.identifier));
}

/// What `resolve` finds is one of the nodes and carries the identifier; it
/// finds nothing only if no node carries it.
pub proof fn lemma_resolve_found(identifier: Seq<char>, nodes: Seq<NodeModel>)
    ensures
        match resolve(identifier, nodes) {
            Some(node) => node.identifier == identifier && exists|i: int|
                0 <= i < nodes.len() && nodes[i] == node,
            None => !is_identifier(identifier, nodes),
        },
    decreases nodes.len(),
{
    if nodes.len() > 0 {
        let rest = nodes.drop_first();
        if nodes[0].identifier == identifier {
            assert(nodes[0] == nodes[0]);
        } else {
            lemma_resolve_found(identifier, rest);
            match resolve(identifier, rest) {
                Some(node) => {
                    let i = choose|i: int| 0 <= i < rest.len() && rest[i] == node;
                    assert(nodes[i + 1] == node);
                },
                None => {
                    if is_identifier(identifier, nodes) {
                        let i = choose|i: int|
                            0 <= i < nodes.len() && (#[trigger] nodes[i]).identifier == identifier;
                        assert(rest[i - 1].identifier == identifier);
                    }
                },
            }
        }
    }
}

/// Where identifiers are distinct, every node is found under its own
/// identifier.
pub proof fn lemma_resolve_at(nodes: Seq<NodeModel>, at: int)
    requires
        identifiers_distinct(nodes),
        0 <= at < nodes.len(),
    ensures
        resolve(nodes[at].identifier, nodes) == Some(nodes[at]),
{
    lemma_resolve_found(nodes[at].identifier, nodes);
    let node = resolve(nodes[at].identifier, nodes)->0;
    let i = choose|i: int| 0 <= i < nodes.len() && nodes[i] == node;
    if i != at {
        assert(nodes[i].identifier == nodes[at].identifier);
    }
}

/// Resolver correctness: an identifier resolves to a label and a command
/// exactly if it belongs to a node and its labels lead to that command under
/// that label. So a group's identifier resolves to nothing, and neither does
/// an identifier with a label that does not exist.
pub proof fn lemma_resolver_correct(
    config: Seq<(Seq<char>, TreeModel)>,
    identifier: Seq<char>,
    label: Seq<char>,
    command: Seq<char>,
)
    requires
        well_formed(config),
        addressable(config),
    ensures
        command_at(identifier, flat(config, Seq::empty()), config) == Some((label, command)) <==> (
        is_identifier(identifier, flat(config, Seq::empty())) && walk(
            config,
            components(identifier),
        ) == Some((label, TreeModel::Leaf(command)))),
{
    let nodes = flat(config, Seq::empty());
    lemma_resolve_found(identifier, nodes);
    if is_identifier(identifier, nodes) {
        let i = choose|i: int|
            0 <= i < nodes.len() && (#[trigger] nodes[i]).identifier == identifier;
        lemma_identifiers_unique(config, Seq::empty());
        lemma_resolve_at(nodes, i);
        lemma_path_fidelity(config, i);
    }
}

/// A sequence of nodes is the flattening of the entries under the prefix.
pub open spec fn is_flattening(
    nodes: Seq<NodeModel>,
    entries: Seq<(Seq<char>, TreeModel)>,
    prefix: Seq<char>,
) -> bool {
    nodes == flat(entries, prefix)
}

/// Ordering determinism: two flattenings of the same entries under the same
/// prefix are the same nodes in the same order.
pub proof fn lemma_flattening_deterministic(
    first: Seq<NodeModel>,
    second: Seq<NodeModel>,
    entries: Seq<(Seq<char>, TreeModel)>,
    prefix: Seq<char>,
)
    requires
        is_flattening(first, entries, prefix),
        is_flattening(second, entries, prefix),
    ensures
        first == second,
{
}

/// Idempotent toggling: flipping the same chain twice leaves the set of
/// expanded chains as it was.
pub proof fn lemma_toggle_twice(opened: Set<Seq<Seq<char>>>, chain: Seq<Seq<char>>)
    ensures
        toggled(toggled(opened, chain), chain) == opened,
{
    assert(toggled(toggled(opened, chain), chain) =~= opened);
}

/// Idempotent toggling in a session: Enter on a highlighted group, twice,
/// leaves the session as it was.
pub proof fn lemma_activate_twice(app: AppModel)
    requires
        app.on_group(),
    ensures
        app.apply(Command::Activate).0.apply(Command::Activate).0 == app,
        app.apply(Command::Activate).1 == ActionModel::Continue,
{
    lemma_toggle_twice(app.nav.opened, app.nav.selected);
    let once = app.apply(Command::Activate).0;
    assert(once.on_group());
}

/// An identifier that a session commits resolves to a command.
pub proof fn lemma_commit_resolves(app: AppModel, event: KeyEvent)
    ensures
        match app.step(event).1 {
            ActionModel::Commit(identifier) => command_at(identifier, app.nodes, app.config)
                is Some,
            _ => true,
        },
{
}

/// Every chain on screen ends with the identifier of a node.
pub proof fn lemma_visible_are_nodes(
    entries: Seq<(Seq<char>, TreeModel)>,
    prefix: Seq<char>,
    chain: Seq<Seq<char>>,
    opened: Set<Seq<Seq<char>>>,
    at: int,
)
    requires
        0 <= at < visible(entries, prefix, chain, opened).len(),
    ensures
        visible(entries, prefix, chain, opened)[at].len() > 0,
        is_identifier(visible(entries, prefix, chain, opened)[at].last(), flat(entries, prefix)),
    decreases entries,
{
    let front = entries.drop_last();
    let (label, tree) = entries.last();
    let own = child_path(prefix, label);
    let here = chain.push(own);
    let head = visible(front, prefix, chain, opened);
    let nodes = flat(entries, prefix);
    let wanted = visible(entries, prefix, chain, opened)[at].last();
    let before = flat(front, prefix);
    if at < head.len() {
        lemma_visible_are_nodes(front, prefix, chain, opened, at);
        let i = choose|i: int| 0 <= i < before.len() && (#[trigger] before[i]).identifier == wanted;
        assert(nodes[i] == before[i]);
    } else if at == head.len() {
        assert(nodes[before.len() as int] == node_of(prefix, label, tree));
    } else {
        match tree {
            TreeModel::Branch(children) => {
                let inner = at - head.len() - 1;
                lemma_visible_are_nodes(children, own, here, opened, inner);
                let below = flat(children, own);
                let i = choose|i: int|
                    0 <= i < below.len() && (#[trigger] below[i]).identifier == wanted;
                assert(nodes[before.len() + 1 + i] == below[i]);
            },
            TreeModel::Leaf(_) => {},
        }
    }
}

impl AppModel {
    /// The highlight points into the menu: nothing is highlighted, or the
    /// last identifier of the highlighted chain belongs to a node.
    pub open spec fn highlight_in_menu(self) -> bool {
        self.nav.selected.len() == 0 || is_identifier(self.nav.selected.last(), self.nodes)
    }
}

/// A highlight that points into the menu still does so after any key.
pub proof fn lemma_step_keeps_highlight(app: AppModel, event: KeyEvent)
    requires
        app.well_formed(),
        app.highlight_in_menu(),
    ensures
        app.step(event).0.highlight_in_menu(),
{
    let shown = app.shown();
    let next = app.step(event).0;
    if next.nav.selected != app.nav.selected {
        lemma_position(shown, app.nav.selected);
        if shown.len() > 0 {
            let at = choose|at: int| 0 <= at < shown.len() && shown[at] == next.nav.selected;
            lemma_visible_are_nodes(app.config, Seq::empty(), Seq::empty(), app.nav.opened, at);
        }
    }
}

/// A menu without nodes commits nothing, whatever keys arrive.
pub proof fn lemma_empty_menu_commits_nothing(app: AppModel, events: Seq<KeyEvent>)
    requires
        app.nodes.len() == 0,
    ensures
        app.run(events).1.is_none(),
    decreases events.len(),
{
    if events.len() > 0 {
        let (next, action) = app.step(events[0]);
        assert(action != ActionModel::Continue ==> action == ActionModel::Quit);
        lemma_empty_menu_commits_nothing(next, events.drop_first());
    }
}

/// A step changes neither the configuration nor its nodes.
pub proof fn lemma_step_keeps_config(app: AppModel, event: KeyEvent)
    ensures
        app.step(event).0.config == app.config,
        app.step(event).0.nodes == app.nodes,
        app.well_formed() ==> app.step(event).0.well_formed(),
{
}

} // verus!
