//! The navigation state: which node is highlighted and which groups are
//! expanded.
//!
//! A node is named here by its chain: the identifiers of its ancestors from
//! the top level down, followed by its own.

use crate::nodes::strings_view;
use crate::path::{child_path, extend_path};
use crate::tree::{entries_view, CollectionTree, TreeModel};
use vstd::prelude::*;

verus! {

/// The mathematical value of a navigation state.
pub struct NavModel {
    /// The chain of the highlighted node; empty when nothing is highlighted.
    pub selected: Seq<Seq<char>>,
    /// The chains of the expanded nodes.
    pub opened: Set<Seq<Seq<char>>>,
}

/// Which node is highlighted and which nodes are expanded.
#[derive(Debug)]
pub struct NavigationState {
    selected: Vec<String>,
    opened: Vec<Vec<String>>,
}

/// The chains held in a list, each as the texts of its identifiers.
pub open spec fn chains_view(chains: Seq<Vec<String>>) -> Seq<Seq<Seq<char>>> {
    Seq::new(chains.len(), |i: int| strings_view(chains[i]@))
}

/// The chains of the nodes on screen, top to bottom: every entry of
/// `entries`, and below each expanded one the visible chains of its children.
/// `prefix` is the identifier of the group that holds `entries` and `chain`
/// the chain of that group.
pub open spec fn visible(
    entries: Seq<(Seq<char>, TreeModel)>,
    prefix: Seq<char>,
    chain: Seq<Seq<char>>,
    opened: Set<Seq<Seq<char>>>,
) -> Seq<Seq<Seq<char>>>
    decreases entries,
{
    if entries.len() == 0 {
        Seq::empty()
    } else {
        let (label, tree) = entries.last();
        let here = chain.push(child_path(prefix, label));
        let below = match tree {
            TreeModel::Branch(children) if opened.contains(here) => visible(
                children,
                child_path(prefix, label),
                here,
                opened,
            ),
            _ => Seq::empty(),
        };
        visible(entries.drop_last(), prefix, chain, opened).push(here) + below
    }
}

/// The first place of `chain` in `chains`, if it occurs.
pub open spec fn position(chains: Seq<Seq<Seq<char>>>, chain: Seq<Seq<char>>) -> Option<int>
    decreases chains.len(),
{
    if chains.len() == 0 {
        None
    } else {
        match position(chains.drop_last(), chain) {
            Some(at) => Some(at),
            None => if chains.last() == chain {
                Some(chains.len() - 1)
            } else {
                None
            },
        }
    }
}

/// The chain highlighted after a step up from `selected` among the chains on
/// screen: the one before it, or the first if it is the first; the last if
/// `selected` is not on screen; none if the screen is empty.
pub open spec fn moved_up(shown: Seq<Seq<Seq<char>>>, selected: Seq<Seq<char>>) -> Seq<Seq<char>> {
    if shown.len() == 0 {
        Seq::empty()
    } else {
        match position(shown, selected) {
            Some(at) => if at == 0 {
                shown[0]
            } else {
                shown[at - 1]
            },
            None => shown.last(),
        }
    }
}

/// The chain highlighted after a step down from `selected` among the chains
/// on screen: the one after it, or the last if it is the last; the first if
/// `selected` is not on screen; none if the screen is empty.
pub open spec fn moved_down(shown: Seq<Seq<Seq<char>>>, selected: Seq<Seq<char>>) -> Seq<
    Seq<char>,
> {
    if shown.len() == 0 {
        Seq::empty()
    } else {
        match position(shown, selected) {
            Some(at) => if at + 1 < shown.len() {
                shown[at + 1]
            } else {
                shown.last()
            },
            None => shown[0],
        }
    }
}

/// The set `opened` after the state of `chain` is flipped: expanded chains
/// collapse and collapsed ones expand. The empty chain names no node and
/// changes nothing.
pub open spec fn toggled(opened: Set<Seq<Seq<char>>>, chain: Seq<Seq<char>>) -> Set<
    Seq<Seq<char>>,
> {
    if chain.len() == 0 {
        opened
    } else if opened.contains(chain) {
        opened.remove(chain)
    } else {
        opened.insert(chain)
    }
}

/// Tells whether two chains hold the same identifiers.
pub fn same_chain(left: &Vec<String>, right: &Vec<String>) -> (same: bool)
    ensures
        same == (strings_view(left@) == strings_view(right@)),
{
    if left.len() != right.len() {
        assert(strings_view(left@).len() != strings_view(right@).len());
        return false;
    }
    let mut i: usize = 0;
    while i < left.len()
        invariant
            i <= left.len() == right.len(),
            forall|k: int| 0 <= k < i ==> left@[k]@ == right@[k]@,
        decreases left.len() - i,
    {
        if left[i] != right[i] {
            assert(strings_view(left@)[i as int] != strings_view(right@)[i as int]);
            return false;
        }
        i += 1;
    }
    assert(strings_view(left@) =~= strings_view(right@));
    true
}

/// Copies a chain.
pub fn clone_chain(chain: &Vec<String>) -> (copy: Vec<String>)
    ensures
        strings_view(copy@) == strings_view(chain@),
{
    let mut copy: Vec<String> = Vec::new();
    let mut i: usize = 0;
    while i < chain.len()
        invariant
            i <= chain.len(),
            copy@.len() == i,
            forall|k: int| 0 <= k < i ==> copy@[k]@ == chain@[k]@,
        decreases chain.len() - i,
    {
        copy.push(chain[i].clone());
        i += 1;
    }
    assert(strings_view(copy@) =~= strings_view(chain@));
    copy
}

/// Finds the first place of `chain` in `chains`.
pub fn find_chain(chains: &Vec<Vec<String>>, chain: &Vec<String>) -> (found: Option<usize>)
    ensures
        match found {
            Some(at) => position(chains_view(chains@), strings_view(chain@)) == Some(at as int)
                && at < chains.len(),
            None => position(chains_view(chains@), strings_view(chain@)).is_none(),
        },
{
    let ghost all = chains_view(chains@);
    let ghost wanted = strings_view(chain@);
    let mut i: usize = 0;
    while i < chains.len()
        invariant
            i <= chains.len(),
            all == chains_view(chains@),
            wanted == strings_view(chain@),
            position(all.take(i as int), wanted).is_none(),
        decreases chains.len() - i,
    {
        assert(all.take(i + 1).drop_last() =~= all.take(i as int));
        if same_chain(&chains[i], chain) {
            proof {
                lemma_position_stays(all, wanted, i + 1);
            }
            return Some(i);
        }
        i += 1;
    }
    assert(all.take(chains.len() as int) =~= all);
    None
}

/// A chain found among the first `count` chains is found at the same place
/// among all of them.
pub proof fn lemma_position_stays(chains: Seq<Seq<Seq<char>>>, chain: Seq<Seq<char>>, count: int)
    requires
        0 <= count <= chains.len(),
        position(chains.take(count), chain) is Some,
    ensures
        position(chains, chain) == position(chains.take(count), chain),
    decreases chains.len() - count,
{
    if count < chains.len() {
        assert(chains.take(count + 1).drop_last() =~= chains.take(count));
        lemma_position_stays(chains, chain, count + 1);
    } else {
        assert(chains.take(count) =~= chains);
    }
}

/// What `position` finds: a place that holds `chain`, before which no place
/// holds it; and nothing only if no place holds it.
pub proof fn lemma_position(chains: Seq<Seq<Seq<char>>>, chain: Seq<Seq<char>>)
    ensures
        match position(chains, chain) {
            Some(at) => 0 <= at < chains.len() && chains[at] == chain && forall|k: int|
                0 <= k < at ==> chains[k] != chain,
            None => forall|k: int| 0 <= k < chains.len() ==> chains[k] != chain,
        },
    decreases chains.len(),
{
    if chains.len() > 0 {
        let front = chains.drop_last();
        lemma_position(front, chain);
        assert forall|k: int| 0 <= k < front.len() implies front[k] == chains[k] by {}
        match position(front, chain) {
            Some(at) => {
                assert(chains[at] == front[at]);
            },
            None => {
                assert forall|k: int| 0 <= k < chains.len() - 1 implies chains[k] != chain by {
                    assert(front[k] != chain);
                }
            },
        }
    }
}


impl View for NavigationState {
    type V = NavModel;

    closed spec fn view(&self) -> NavModel {
        NavModel {
            selected: strings_view(self.selected@),
            opened: chains_view(self.opened@).to_set(),
        }
    }
}

impl Default for NavigationState {
    /// The state at the start of a session.
    fn default() -> (state: NavigationState)
        ensures
            state@.selected == Seq::<Seq<char>>::empty(),
            state@.opened == Set::<Seq<Seq<char>>>::empty(),
    {
        NavigationState::new()
    }
}

impl NavigationState {
    /// The state at the start of a session: nothing highlighted, nothing
    /// expanded.
    pub fn new() -> (state: NavigationState)
        ensures
            state@.selected == Seq::<Seq<char>>::empty(),
            state@.opened == Set::<Seq<Seq<char>>>::empty(),
    {
        let state = NavigationState { selected: Vec::new(), opened: Vec::new() };
        assert(strings_view(state.selected@) =~= Seq::empty());
        assert(chains_view(state.opened@).to_set() =~= Set::empty());
        state
    }

    /// The chain of the highlighted node; empty when nothing is highlighted.
    pub fn selected(&self) -> (chain: &Vec<String>)
        ensures
            strings_view(chain@) == self@.selected,
    {
        &self.selected
    }

    /// The chains of the expanded nodes, each once or more, in no particular
    /// order.
    pub fn opened(&self) -> (chains: &Vec<Vec<String>>)
        ensures
            chains_view(chains@).to_set() == self@.opened,
    {
        &self.opened
    }

    /// Tells whether the node named by `chain` is expanded.
    pub fn is_open(&self, chain: &Vec<String>) -> (open: bool)
        ensures
            open == self@.opened.contains(strings_view(chain@)),
    {
        let found = find_chain(&self.opened, chain);
        proof {
            lemma_position(chains_view(self.opened@), strings_view(chain@));
        }
        found.is_some()
    }

    /// Highlights the node named by `chain`; the empty chain clears the
    /// highlight. Returns whether the highlight changed.
    pub fn select(&mut self, chain: Vec<String>) -> (changed: bool)
        ensures
            final(self)@.selected == strings_view(chain@),
            final(self)@.opened == old(self)@.opened,
            changed == (old(self)@.selected != strings_view(chain@)),
    {
        let changed = !same_chain(&self.selected, &chain);
        self.selected = chain;
        changed
    }

    /// Expands the node named by `chain`. Returns whether it was collapsed
    /// before. The empty chain names no node and changes nothing.
    pub fn open(&mut self, chain: Vec<String>) -> (changed: bool)
        ensures
            final(self)@.selected == old(self)@.selected,
            final(self)@.opened == if chain@.len() == 0 {
                old(self)@.opened
            } else {
                old(self)@.opened.insert(strings_view(chain@))
            },
            changed == (chain@.len() > 0 && !old(self)@.opened.contains(strings_view(chain@))),
    {
        if chain.len() == 0 || self.is_open(&chain) {
            assert(old(self)@.opened.contains(strings_view(chain@)) ==> old(self)@.opened.insert(
                strings_view(chain@),
            ) =~= old(self)@.opened);
            return false;
        }
        let ghost before = chains_view(self.opened@);
        let ghost added = strings_view(chain@);
        self.opened.push(chain);
        proof {
            let after = chains_view(self.opened@);
            assert(after =~= before.push(added));
            assert forall|c: Seq<Seq<char>>| after.to_set().contains(c) <==> before.to_set().insert(
                added,
            ).contains(c) by {
                if before.to_set().contains(c) {
                    let k = choose|k: int| 0 <= k < before.len() && before[k] == c;
                    assert(after[k] == c);
                }
                if c == added {
                    assert(after[before.len() as int] == c);
                }
            }
            assert(after.to_set() =~= before.to_set().insert(added));
        }
        true
    }

    /// Collapses the node named by `chain`. Returns whether it was expanded
    /// before.
    pub fn close(&mut self, chain: &Vec<String>) -> (changed: bool)
        ensures
            final(self)@.selected == old(self)@.selected,
            final(self)@.opened == old(self)@.opened.remove(strings_view(chain@)),
            changed == old(self)@.opened.contains(strings_view(chain@)),
    {
        let ghost before = chains_view(self.opened@);
        let ghost gone = strings_view(chain@);
        let mut kept: Vec<Vec<String>> = Vec::new();
        let mut changed = false;
        let mut i: usize = 0;
        while i < self.opened.len()
            invariant
                i <= self.opened.len(),
                before == chains_view(self.opened@),
                gone == strings_view(chain@),
                self.selected == old(self).selected,
                changed == before.take(i as int).contains(gone),
                forall|c: Seq<Seq<char>>|
                    chains_view(kept@).contains(c) <==> (c != gone && before.take(
                        i as int,
                    ).contains(c)),
            decreases self.opened.len() - i,
        {
            let ghost seen = before.take(i as int);
            let ghost more = before.take(i + 1);
            let ghost held = chains_view(kept@);
            assert(more =~= seen.push(before[i as int]));
            assert forall|c: Seq<Seq<char>>| more.contains(c) <==> (seen.contains(c) || c
                == before[i as int]) by {
                if seen.contains(c) {
                    let k = choose|k: int| 0 <= k < seen.len() && seen[k] == c;
                    assert(more[k] == c);
                }
                if c == before[i as int] {
                    assert(more[i as int] == c);
                }
            }
            if same_chain(&self.opened[i], chain) {
                changed = true;
            } else {
                let copy = clone_chain(&self.opened[i]);
                kept.push(copy);
                proof {
                    let grown = chains_view(kept@);
                    assert(grown =~= held.push(before[i as int]));
                    assert forall|c: Seq<Seq<char>>| grown.contains(c) <==> (held.contains(c) || c
                        == before[i as int]) by {
                        if held.contains(c) {
                            let k = choose|k: int| 0 <= k < held.len() && held[k] == c;
                            assert(grown[k] == c);
                        }
                        if c == before[i as int] {
                            assert(grown[held.len() as int] == c);
                        }
                    }
                }
            }
            i += 1;
        }
        assert(before.take(self.opened.len() as int) =~= before);
        self.opened = kept;
        assert(chains_view(self.opened@).to_set() =~= before.to_set().remove(gone));
        changed
    }

    /// Flips the node named by `chain` between expanded and collapsed.
    /// Returns whether anything changed, which is unless the chain is empty.
    pub fn toggle(&mut self, chain: Vec<String>) -> (changed: bool)
        ensures
            final(self)@.selected == old(self)@.selected,
            final(self)@.opened == toggled(old(self)@.opened, strings_view(chain@)),
            changed == (chain@.len() > 0),
    {
        if chain.len() == 0 {
            false
        } else if self.is_open(&chain) {
            self.close(&chain)
        } else {
            self.open(chain)
        }
    }

    /// Flips the highlighted node between expanded and collapsed. Returns
    /// whether anything changed, which is unless nothing is highlighted.
    pub fn toggle_selected(&mut self) -> (changed: bool)
        ensures
            final(self)@.selected == old(self)@.selected,
            final(self)@.opened == toggled(old(self)@.opened, old(self)@.selected),
            changed == (old(self)@.selected.len() > 0),
    {
        let chain = clone_chain(&self.selected);
        self.toggle(chain)
    }

    /// Moves the highlight one line up among the chains `shown` on screen.
    /// Returns whether the highlight changed.
    pub fn key_up(&mut self, shown: &Vec<Vec<String>>) -> (changed: bool)
        ensures
            final(self)@.selected == moved_up(chains_view(shown@), old(self)@.selected),
            final(self)@.opened == old(self)@.opened,
            changed == (final(self)@.selected != old(self)@.selected),
    {
        if shown.len() == 0 {
            return self.select(Vec::new());
        }
        let target = match find_chain(shown, &self.selected) {
            Some(at) => if at == 0 {
                0
            } else {
                at - 1
            },
            None => shown.len() - 1,
        };
        let chain = clone_chain(&shown[target]);
        self.select(chain)
    }

    /// Moves the highlight one line down among the chains `shown` on screen.
    /// Returns whether the highlight changed.
    pub fn key_down(&mut self, shown: &Vec<Vec<String>>) -> (changed: bool)
        ensures
            final(self)@.selected == moved_down(chains_view(shown@), old(self)@.selected),
            final(self)@.opened == old(self)@.opened,
            changed == (final(self)@.selected != old(self)@.selected),
    {
        if shown.len() == 0 {
            return self.select(Vec::new());
        }
        let target = match find_chain(shown, &self.selected) {
            Some(at) => if at + 1 < shown.len() {
                at + 1
            } else {
                shown.len() - 1
            },
            None => 0,
        };
        let chain = clone_chain(&shown[target]);
        self.select(chain)
    }
}


/// Lists the chains of the nodes on screen, top to bottom: the entries of
/// the group `prefix`, whose own chain is `chain`, and what is visible below
/// each expanded one.
pub fn visible_chains(
    entries: &Vec<(String, CollectionTree)>,
    prefix: &String,
    chain: &Vec<String>,
    state: &NavigationState,
) -> (shown: Vec<Vec<String>>)
    ensures
        chains_view(shown@) == visible(
            entries_view(entries@),
            prefix@,
            strings_view(chain@),
            state@.opened,
        ),
    decreases entries,
{
    let ghost all = entries_view(entries@);
    let ghost above = strings_view(chain@);
    let ghost opened = state@.opened;
    let mut shown: Vec<Vec<String>> = Vec::new();
    let mut i: usize = 0;
    assert(chains_view(shown@) =~= visible(all.take(0), prefix@, above, opened));
    while i < entries.len()
        invariant
            i <= entries.len(),
            all == entries_view(entries@),
            above == strings_view(chain@),
            opened == state@.opened,
            chains_view(shown@) == visible(all.take(i as int), prefix@, above, opened),
        decreases entries.len() - i,
    {
        let identifier = extend_path(prefix.as_str(), entries[i].0.as_str());
        let subtree = &entries[i].1;
        let ghost before = chains_view(shown@);
        assert(all.take(i + 1).drop_last() =~= all.take(i as int));
        assert(all.take(i + 1).last() == (entries@[i as int].0@, subtree@));
        let mut here = clone_chain(chain);
        here.push(identifier.clone());
        assert(strings_view(here@) =~= above.push(identifier@));
        match subtree {
            CollectionTree::Branch(children) => {
                if state.is_open(&here) {
                    let mut below = visible_chains(children, &identifier, &here, state);
                    let ghost lower = chains_view(below@);
                    shown.push(here);
                    shown.append(&mut below);
                    assert(chains_view(shown@) =~= before.push(above.push(identifier@)) + lower);
                } else {
                    shown.push(here);
                    assert(chains_view(shown@) =~= before.push(above.push(identifier@))
                        + Seq::empty());
                }
            },
            CollectionTree::Leaf(_) => {
                shown.push(here);
                assert(chains_view(shown@) =~= before.push(above.push(identifier@))
                    + Seq::empty());
            },
        }
        i += 1;
    }
    assert(all.take(entries.len() as int) =~= all);
    shown
}

} // verus!
