//! What the tree widget that draws the menu is handed: its items and its
//! state.
//!
//! An item and a state of `tui_tree_widget` are opaque values to the
//! verifier. The items marked as calls below say how the library makes and
//! changes them; their contracts are believed, not proved.

use crate::error::CcolError;
use crate::nav::{chains_view, clone_chain, NavigationState};
use crate::nodes::strings_view;
use crate::path::{child_path, extend_path};
use crate::tree::{entries_view, labels_distinct, well_formed, CollectionTree, TreeModel};
use tui_tree_widget::{TreeItem, TreeState};
use vstd::prelude::*;
use vstd::string::*;

verus! {

/// `tui_tree_widget::TreeItem`: one line of the tree widget with the lines
/// below it.
#[verifier::external_type_specification]
#[verifier::external_body]
#[verifier::reject_recursive_types(Identifier)]
pub struct ExTreeItem<'text, Identifier>(tui_tree_widget::TreeItem<'text, Identifier>);

/// The identifier that an item was made with.
pub uninterp spec fn item_identifier(item: TreeItem<'static, String>) -> Seq<char>;

/// The items directly below an item, in order.
pub uninterp spec fn item_children(item: TreeItem<'static, String>) -> Seq<
    TreeItem<'static, String>,
>;

/// No two of `items` carry the same identifier.
pub open spec fn identifiers_differ(items: Seq<TreeItem<'static, String>>) -> bool {
    forall|i: int, j: int|
        0 <= i < j < items.len() ==> item_identifier(#[trigger] items[i]) != item_identifier(
            #[trigger] items[j],
        )
}

/// Calls `TreeItem::new_leaf`: an item with the identifier and nothing below
/// it. Nothing is said of the text it shows.
#[verifier::external_body]
fn new_leaf(identifier: String, text: String) -> (item: TreeItem<'static, String>)
    ensures
        item_identifier(item) == identifier@,
        item_children(item).len() == 0,
{
    TreeItem::new_leaf(identifier, text)
}

/// Calls `TreeItem::new`, which fails exactly if two of the children carry
/// the same identifier, and else makes an item with the identifier and these
/// children. Nothing is said of the text it shows.
#[verifier::external_body]
fn new_item(identifier: String, text: String, children: Vec<TreeItem<'static, String>>) -> (outcome:
    Result<TreeItem<'static, String>, std::io::Error>)
    ensures
        match outcome {
            Ok(item) => {
                &&& identifiers_differ(children@)
                &&& item_identifier(item) == identifier@
                &&& item_children(item) == children@
            },
            Err(_) => !identifiers_differ(children@),
        },
{
    TreeItem::new(identifier, text, children)
}

/// `items` stand for `entries` one by one: each carries the identifier of
/// its entry under `prefix`, and the items below it stand for the entries
/// below its entry.
pub open spec fn mirrors(
    items: Seq<TreeItem<'static, String>>,
    entries: Seq<(Seq<char>, TreeModel)>,
    prefix: Seq<char>,
) -> bool
    decreases entries,
{
    &&& items.len() == entries.len()
    &&& forall|i: int|
        0 <= i < entries.len() ==> item_identifier(items[i]) == child_path(
            prefix,
            (#[trigger] entries[i]).0,
        ) && match entries[i].1 {
            TreeModel::Leaf(_) => item_children(items[i]).len() == 0,
            TreeModel::Branch(children) => mirrors(
                item_children(items[i]),
                children,
                child_path(prefix, entries[i].0),
            ),
        }
}

/// Every group below `entries`, at any depth, has pairwise distinct labels.
pub open spec fn groups_well_formed(entries: Seq<(Seq<char>, TreeModel)>) -> bool {
    forall|i: int| 0 <= i < entries.len() ==> (#[trigger] entries[i]).1.well_formed()
}

/// Items that stand for entries differ in their identifiers exactly if the
/// entries differ in their labels.
pub proof fn lemma_mirrored_labels(
    items: Seq<TreeItem<'static, String>>,
    entries: Seq<(Seq<char>, TreeModel)>,
    prefix: Seq<char>,
)
    requires
        mirrors(items, entries, prefix),
    ensures
        identifiers_differ(items) <==> labels_distinct(entries),
{
    assert forall|i: int| 0 <= i < entries.len() implies item_identifier(items[i]) == child_path(
        prefix,
        entries[i].0,
    ) by {
        assert(entries[i] == entries[i]);
    }
    assert forall|i: int, j: int| 0 <= i < j < entries.len() implies (entries[i].0 == entries[j].0
        <==> item_identifier(items[i]) == item_identifier(items[j])) by {
        let first = child_path(prefix, entries[i].0);
        let second = child_path(prefix, entries[j].0);
        assert(first.skip(prefix.len() as int + 1) =~= entries[i].0);
        assert(second.skip(prefix.len() as int + 1) =~= entries[j].0);
    }
    if identifiers_differ(items) {
        assert forall|i: int, j: int| 0 <= i < j < entries.len() implies (#[trigger] entries[i]).0
            != (#[trigger] entries[j]).0 by {
            assert(item_identifier(items[i]) != item_identifier(items[j]));
        }
    }
    if labels_distinct(entries) {
        assert forall|i: int, j: int| 0 <= i < j < items.len() implies item_identifier(
            #[trigger] items[i],
        ) != item_identifier(#[trigger] items[j]) by {
            assert(entries[i].0 != entries[j].0);
        }
    }
}

/// Builds the items of the tree widget for the group `map`, whose own
/// identifier is `path`. Fails exactly if a group below `map` holds a label
/// twice, which the widget does not accept.
pub fn widget_items(map: &Vec<(String, CollectionTree)>, path: String) -> (outcome: Result<
    Vec<TreeItem<'static, String>>,
    CcolError,
>)
    ensures
        match outcome {
            Ok(items) => groups_well_formed(entries_view(map@)) && mirrors(
                items@,
                entries_view(map@),
                path@,
            ),
            Err(error) => !groups_well_formed(entries_view(map@)) && error is FileIO,
        },
    decreases map,
{
    let ghost entries = entries_view(map@);
    let mut items: Vec<TreeItem<'static, String>> = Vec::new();
    let mut i: usize = 0;
    while i < map.len()
        invariant
            i <= map.len(),
            entries == entries_view(map@),
            groups_well_formed(entries.take(i as int)),
            mirrors(items@, entries.take(i as int), path@),
        decreases map.len() - i,
    {
        let key = &map[i].0;
        let subtree = &map[i].1;
        let new_path = extend_path(path.as_str(), key.as_str());
        let ghost seen = entries.take(i as int);
        let ghost more = entries.take(i + 1);
        let ghost before = items@;
        assert(entries[i as int] == (key@, subtree@));
        let item = match subtree {
            CollectionTree::Leaf(command) => new_leaf(
                new_path,
                key.clone().concat(": ").concat(command.as_str()),
            ),
            CollectionTree::Branch(children) => {
                let below = match widget_items(children, new_path.clone()) {
                    Ok(below) => below,
                    Err(error) => {
                        assert(!entries[i as int].1.well_formed());
                        return Err(error);
                    },
                };
                proof {
                    lemma_mirrored_labels(below@, entries_view(children@), new_path@);
                }
                match new_item(new_path, key.clone(), below) {
                    Ok(item) => item,
                    Err(error) => {
                        assert(!entries[i as int].1.well_formed());
                        return Err(CcolError::from(error));
                    },
                }
            },
        };
        items.push(item);
        proof {
            assert forall|k: int| 0 <= k < more.len() implies (
            #[trigger] more[k]).1.well_formed() by {
                if k < i {
                    assert(seen[k] == more[k]);
                }
            }
            assert forall|k: int| 0 <= k < more.len() implies item_identifier(items@[k])
                == child_path(path@, (#[trigger] more[k]).0) && match more[k].1 {
                TreeModel::Leaf(_) => item_children(items@[k]).len() == 0,
                TreeModel::Branch(children) => mirrors(
                    item_children(items@[k]),
                    children,
                    child_path(path@, more[k].0),
                ),
            } by {
                if k < i {
                    assert(seen[k] == more[k]);
                    assert(before[k] == items@[k]);
                }
            }
        }
        i += 1;
    }
    assert(entries.take(map.len() as int) =~= entries);
    Ok(items)
}

/// The widget accepts the items of a configuration in which no group holds
/// a label twice: the items at the top differ in their identifiers, as those
/// of every group below do.
pub proof fn lemma_widget_accepts(
    items: Seq<TreeItem<'static, String>>,
    entries: Seq<(Seq<char>, TreeModel)>,
    prefix: Seq<char>,
)
    requires
        well_formed(entries),
        mirrors(items, entries, prefix),
    ensures
        identifiers_differ(items),
        groups_well_formed(entries),
{
    lemma_mirrored_labels(items, entries, prefix);
}

/// `tui_tree_widget::TreeState`: what the widget highlights and expands.
#[verifier::external_type_specification]
#[verifier::external_body]
#[verifier::reject_recursive_types(Identifier)]
pub struct ExTreeState<Identifier>(tui_tree_widget::TreeState<Identifier>);

/// The chain that a widget state has selected.
pub uninterp spec fn widget_selected(state: TreeState<String>) -> Seq<Seq<char>>;

/// The chains that a widget state has opened.
pub uninterp spec fn widget_opened(state: TreeState<String>) -> Set<Seq<Seq<char>>>;

/// Calls `TreeState::select`, which replaces the selected chain and returns
/// whether it was another one before.
#[verifier::external_body]
fn select_in(state: &mut TreeState<String>, chain: Vec<String>) -> (changed: bool)
    ensures
        widget_selected(*final(state)) == strings_view(chain@),
        widget_opened(*final(state)) == widget_opened(*old(state)),
        changed == (widget_selected(*old(state)) != strings_view(chain@)),
{
    state.select(chain)
}

/// Calls `TreeState::open`, which adds a chain that is not empty to the
/// opened ones and returns whether it was added.
#[verifier::external_body]
fn open_in(state: &mut TreeState<String>, chain: Vec<String>) -> (changed: bool)
    ensures
        widget_selected(*final(state)) == widget_selected(*old(state)),
        widget_opened(*final(state)) == if chain@.len() == 0 {
            widget_opened(*old(state))
        } else {
            widget_opened(*old(state)).insert(strings_view(chain@))
        },
        changed == (chain@.len() > 0 && !widget_opened(*old(state)).contains(
            strings_view(chain@),
        )),
{
    state.open(chain)
}

/// Calls `TreeState::close_all`, which leaves no chain opened and returns
/// whether one was.
#[verifier::external_body]
fn close_all_in(state: &mut TreeState<String>) -> (changed: bool)
    ensures
        widget_selected(*final(state)) == widget_selected(*old(state)),
        widget_opened(*final(state)) == Set::<Seq<Seq<char>>>::empty(),
        changed == (widget_opened(*old(state)) != Set::<Seq<Seq<char>>>::empty()),
{
    state.close_all()
}

/// Makes the widget highlight and expand what the navigation state says.
/// The widget knows no empty chain, so none is opened.
pub fn sync_widget_state(widget_state: &mut TreeState<String>, state: &NavigationState)
    ensures
        widget_selected(*final(widget_state)) == state@.selected,
        widget_opened(*final(widget_state)) == state@.opened.remove(Seq::empty()),
{
    let opened = state.opened();
    let ghost all = chains_view(opened@);
    close_all_in(widget_state);
    let mut i: usize = 0;
    assert(all.take(0).to_set().remove(Seq::empty()) =~= Set::<Seq<Seq<char>>>::empty());
    while i < opened.len()
        invariant
            i <= opened.len(),
            all == chains_view(opened@),
            widget_opened(*widget_state) == all.take(i as int).to_set().remove(Seq::empty()),
        decreases opened.len() - i,
    {
        let chain = clone_chain(&opened[i]);
        let ghost seen = all.take(i as int);
        let ghost more = all.take(i + 1);
        proof {
            assert(strings_view(chain@) == all[i as int]);
            assert(all[i as int].len() == chain@.len());
            if chain@.len() == 0 {
                assert(all[i as int] =~= Seq::<Seq<char>>::empty());
            }
            assert(more =~= seen.push(all[i as int]));
            assert forall|c: Seq<Seq<char>>| more.to_set().contains(c) <==> (seen.to_set().contains(
                c,
            ) || c == all[i as int]) by {
                if seen.contains(c) {
                    let k = choose|k: int| 0 <= k < seen.len() && seen[k] == c;
                    assert(more[k] == c);
                }
                if c == all[i as int] {
                    assert(more[i as int] == c);
                }
            }
        }
        open_in(widget_state, chain);
        assert(widget_opened(*widget_state) =~= more.to_set().remove(Seq::empty()));
        i += 1;
    }
    assert(all.take(opened.len() as int) =~= all);
    select_in(widget_state, clone_chain(state.selected()));
}

} // verus!
