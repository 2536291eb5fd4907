//! The configuration tree and its mathematical model.

use crate::error::CcolError;
use crate::json::{json_depth, json_shape, shape_of, JsonShape, ShapeModel};
use crate::path::{child_path, extend_path, is_slash_free, slash_free, texts};
use serde_json::Value;
use vstd::prelude::*;
use vstd::string::*;

verus! {

/// The mathematical value of a configuration tree.
pub enum TreeModel {
    /// A command, held as its text.
    Leaf(Seq<char>),
    /// A group: labelled subtrees in their order of appearance.
    Branch(Seq<(Seq<char>, TreeModel)>),
}

/// A configuration: either one command or a group of labelled configurations.
#[derive(Debug, PartialEq, Eq)]
pub enum CollectionTree {
    Leaf(String),
    Branch(Vec<(String, CollectionTree)>),
}

/// No two entries carry the same label.
pub open spec fn labels_distinct(entries: Seq<(Seq<char>, TreeModel)>) -> bool {
    forall|i: int, j: int|
        0 <= i < j < entries.len() ==> (#[trigger] entries[i]).0 != (#[trigger] entries[j]).0
}

/// Every group among `entries`, at any depth, has pairwise distinct labels,
/// and so have `entries` themselves.
pub open spec fn well_formed(entries: Seq<(Seq<char>, TreeModel)>) -> bool
    decreases entries,
{
    &&& labels_distinct(entries)
    &&& forall|i: int|
        0 <= i < entries.len() ==> match (#[trigger] entries[i]).1 {
            TreeModel::Leaf(_) => true,
            TreeModel::Branch(children) => well_formed(children),
        }
}

impl TreeModel {
    /// Every group in the tree has pairwise distinct labels.
    pub open spec fn well_formed(self) -> bool {
        match self {
            TreeModel::Leaf(_) => true,
            TreeModel::Branch(entries) => well_formed(entries),
        }
    }
}

/// The model of a list of labelled trees.
pub open spec fn entries_view(entries: Seq<(String, CollectionTree)>) -> Seq<(Seq<char>, TreeModel)>
    decreases entries,
{
    Seq::new(
        entries.len(),
        |i: int|
            if 0 <= i < entries.len() {
                (entries[i].0@, entries[i].1@)
            } else {
                arbitrary()
            },
    )
}

impl View for CollectionTree {
    type V = TreeModel;

    open spec fn view(&self) -> TreeModel
        decreases self,
    {
        match self {
            CollectionTree::Leaf(command) => TreeModel::Leaf(command@),
            CollectionTree::Branch(children) => TreeModel::Branch(entries_view(children@)),
        }
    }
}

/// The subtree under the first entry labelled `label`, if there is one.
pub open spec fn lookup(entries: Seq<(Seq<char>, TreeModel)>, label: Seq<char>) -> Option<
    TreeModel,
>
    decreases entries.len(),
{
    if entries.len() == 0 {
        None
    } else if entries[0].0 == label {
        Some(entries[0].1)
    } else {
        lookup(entries.drop_first(), label)
    }
}

/// Walks `parts` down from `entries`, one label per level. The result is the
/// last label with the tree found under it. There is none when `parts` is
/// empty, when a label is missing, or when a label before the last one names
/// a command.
pub open spec fn walk(entries: Seq<(Seq<char>, TreeModel)>, parts: Seq<Seq<char>>) -> Option<
    (Seq<char>, TreeModel),
>
    decreases parts.len(),
{
    if parts.len() == 0 {
        None
    } else {
        match lookup(entries, parts[0]) {
            None => None,
            Some(subtree) => if parts.len() == 1 {
                Some((parts[0], subtree))
            } else {
                match subtree {
                    TreeModel::Branch(children) => walk(children, parts.drop_first()),
                    TreeModel::Leaf(_) => None,
                }
            },
        }
    }
}

/// Finds the first entry labelled `label`.
pub fn find_entry<'a>(entries: &'a Vec<(String, CollectionTree)>, label: &str) -> (found: Option<
    &'a CollectionTree,
>)
    ensures
        match found {
            Some(subtree) => lookup(entries_view(entries@), label@) == Some(subtree@),
            None => lookup(entries_view(entries@), label@).is_none(),
        },
{
    let wanted = String::from_str(label);
    let ghost all = entries_view(entries@);
    let mut i: usize = 0;
    assert(all.skip(0) =~= all);
    while i < entries.len()
        invariant
            i <= entries.len(),
            all == entries_view(entries@),
            wanted@ == label@,
            lookup(all, label@) == lookup(all.skip(i as int), label@),
        decreases entries.len() - i,
    {
        if entries[i].0 == wanted {
            return Some(&entries[i].1);
        }
        assert(all.skip(i as int).drop_first() =~= all.skip(i + 1));
        i += 1;
    }
    None
}

/// Walks the labels `path_components` down from `json` and returns the last
/// label with the tree it names.
pub fn find_node<'a>(
    path_components: &[&'a str],
    json: &'a Vec<(String, CollectionTree)>,
) -> (found: Option<(&'a str, &'a CollectionTree)>)
    ensures
        match found {
            Some((key, node)) => walk(entries_view(json@), texts(path_components@))
                == Some((key@, node@)),
            None => walk(entries_view(json@), texts(path_components@)).is_none(),
        },
{
    let ghost parts = texts(path_components@);
    let count = path_components.len();
    let mut level: &'a Vec<(String, CollectionTree)> = json;
    let mut i: usize = 0;
    assert(parts.skip(0) =~= parts);
    while i < count
        invariant
            i <= count == path_components@.len(),
            parts == texts(path_components@),
            walk(entries_view(json@), parts) == walk(entries_view(level@), parts.skip(i as int)),
        decreases count - i,
    {
        let key: &'a str = path_components[i];
        assert(parts.skip(i as int)[0] == key@);
        assert(parts.skip(i as int).drop_first() =~= parts.skip(i + 1));
        match find_entry(level, key) {
            None => {
                return None;
            },
            Some(subtree) => {
                if i + 1 == count {
                    return Some((key, subtree));
                }
                match subtree {
                    CollectionTree::Branch(children) => {
                        level = children;
                    },
                    CollectionTree::Leaf(_) => {
                        return None;
                    },
                }
            },
        }
        i += 1;
    }
    None
}


/// The tree that a parsed document stands for, if it stands for one: a string
/// is a command, an object is a group of its members, and anything else,
/// at any depth, leaves no tree.
pub open spec fn tree_of(value: Value) -> Option<TreeModel>
    decreases json_depth(value), 1nat,
{
    match json_shape(value) {
        ShapeModel::Text(command) => Some(TreeModel::Leaf(command)),
        ShapeModel::Object(members) => if forall|i: int|
            0 <= i < members.len() ==> member_tree(
                (#[trigger] members[i]).1,
                json_depth(value),
            ) is Some {
            Some(
                TreeModel::Branch(
                    Seq::new(
                        members.len(),
                        |i: int| (members[i].0, member_tree(members[i].1, json_depth(value))->0),
                    ),
                ),
            )
        } else {
            None
        },
        ShapeModel::Other => None,
    }
}

/// The tree of a member of an object that is nested `bound` deep. The bound
/// serves the definition only: every member lies less deep than its object.
pub open spec fn member_tree(member: Value, bound: nat) -> Option<TreeModel>
    decreases bound, 0nat,
{
    if json_depth(member) < bound {
        tree_of(member)
    } else {
        None
    }
}

/// The entries of the configuration that a parsed document stands for: the
/// document must be an object, and a tree all the way down.
pub open spec fn config_of(value: Value) -> Option<Seq<(Seq<char>, TreeModel)>> {
    match tree_of(value) {
        Some(TreeModel::Branch(entries)) => Some(entries),
        _ => None,
    }
}

impl CollectionTree {
    /// Builds the tree that a parsed document stands for. Fails when
    /// something in the document is neither a string nor an object.
    pub fn from_value(value: &Value) -> (outcome: Result<CollectionTree, CcolError>)
        ensures
            match outcome {
                Ok(tree) => tree_of(*value) == Some(tree@) && tree@.well_formed(),
                Err(error) => tree_of(*value).is_none() && error is ParseConfigError,
            },
        decreases json_depth(*value),
    {
        match shape_of(value) {
            JsonShape::Text(command) => Ok(CollectionTree::Leaf(String::from_str(command))),
            JsonShape::Other => Err(CcolError::ParseConfigError),
            JsonShape::Object(members) => {
                let ghost models = match json_shape(*value) {
                    ShapeModel::Object(models) => models,
                    _ => Seq::empty(),
                };
                let ghost bound = json_depth(*value);
                let mut entries: Vec<(String, CollectionTree)> = Vec::new();
                let mut i: usize = 0;
                while i < members.len()
                    invariant
                        i <= members.len() == models.len(),
                        entries@.len() == i,
                        bound == json_depth(*value),
                        json_shape(*value) == ShapeModel::Object(models),
                        forall|k: int|
                            0 <= k < members@.len() ==> (#[trigger] models[k]) == (
                                members@[k].0@,
                                *members@[k].1,
                            ),
                        forall|k: int, j: int|
                            0 <= k < j < members@.len() ==> members@[k].0@ != members@[j].0@,
                        forall|k: int|
                            0 <= k < members@.len() ==> json_depth(*#[trigger] members@[k].1)
                                < bound,
                        forall|k: int|
                            0 <= k < i ==> member_tree((#[trigger] models[k]).1, bound) == Some(
                                entries@[k].1@,
                            ) && entries@[k].0@ == models[k].0 && entries@[k].1@.well_formed(),
                    decreases members.len() - i,
                {
                    let (key, member) = members[i];
                    assert(models[i as int] == (key@, *member));
                    match CollectionTree::from_value(member) {
                        Err(error) => {
                            assert(member_tree(models[i as int].1, bound).is_none());
                            return Err(error);
                        },
                        Ok(subtree) => {
                            entries.push((String::from_str(key), subtree));
                        },
                    }
                    i += 1;
                }
                let tree = CollectionTree::Branch(entries);
                proof {
                    let built = entries_view(entries@);
                    assert forall|k: int| 0 <= k < models.len() implies member_tree(
                        (#[trigger] models[k]).1,
                        bound,
                    ) is Some by {}
                    assert(labels_distinct(built)) by {
                        assert forall|k: int, j: int| 0 <= k < j < built.len() implies (
                        #[trigger] built[k]).0 != (#[trigger] built[j]).0 by {
                            assert(models[k].0 == members@[k].0@);
                            assert(models[j].0 == members@[j].0@);
                        }
                    }
                    assert forall|k: int| 0 <= k < built.len() implies (
                    #[trigger] built[k]).1.well_formed() by {
                        assert(models[k].1 == *members@[k].1);
                    }
                    assert(well_formed(built));
                    assert(tree_of(*value)->0->Branch_0 =~= built);
                }
                Ok(tree)
            },
        }
    }
}


/// The identifier of the first thing in a document, in depth-first order,
/// that is neither a string nor an object, where `path` is the identifier of
/// the document itself. There is none exactly if the document is a tree.
pub open spec fn anomaly_of(value: Value, path: Seq<char>) -> Option<Seq<char>>
    decreases json_depth(value), 1nat, 0nat,
{
    match json_shape(value) {
        ShapeModel::Text(_) => None,
        ShapeModel::Object(members) => first_anomaly(members, path, json_depth(value), 0),
        ShapeModel::Other => Some(path),
    }
}

/// The first anomaly among the members of an object from the place `from`
/// on. As in `member_tree`, the bound serves the definition only.
pub open spec fn first_anomaly(
    members: Seq<(Seq<char>, Value)>,
    path: Seq<char>,
    bound: nat,
    from: int,
) -> Option<Seq<char>>
    decreases bound, 0nat, members.len() - from,
{
    if from < 0 || from >= members.len() {
        None
    } else if json_depth(members[from].1) >= bound {
        Some(child_path(path, members[from].0))
    } else {
        match anomaly_of(members[from].1, child_path(path, members[from].0)) {
            Some(found) => Some(found),
            None => first_anomaly(members, path, bound, from + 1),
        }
    }
}

/// The identifier of what keeps a document from being a configuration: the
/// empty identifier where the document itself is no object, else the first
/// anomaly inside it.
pub open spec fn config_anomaly(value: Value) -> Option<Seq<char>> {
    match json_shape(value) {
        ShapeModel::Object(_) => anomaly_of(value, Seq::empty()),
        _ => Some(Seq::empty()),
    }
}

/// A document has an anomaly exactly if it stands for no tree.
pub proof fn lemma_anomaly_iff_no_tree(value: Value, path: Seq<char>)
    ensures
        anomaly_of(value, path) is Some <==> tree_of(value).is_none(),
    decreases json_depth(value), 1nat, 0nat,
{
    match json_shape(value) {
        ShapeModel::Object(members) => {
            lemma_first_anomaly(members, path, json_depth(value), 0);
        },
        _ => {},
    }
}

/// There is an anomaly from `from` on exactly if one of the members from
/// there on stands for no tree.
pub proof fn lemma_first_anomaly(
    members: Seq<(Seq<char>, Value)>,
    path: Seq<char>,
    bound: nat,
    from: int,
)
    requires
        0 <= from,
    ensures
        first_anomaly(members, path, bound, from) is Some <==> exists|i: int|
            from <= i < members.len() && member_tree((#[trigger] members[i]).1, bound).is_none(),
    decreases bound, 0nat, members.len() - from,
{
    if from < members.len() {
        lemma_first_anomaly(members, path, bound, from + 1);
        if json_depth(members[from].1) < bound {
            lemma_anomaly_iff_no_tree(members[from].1, child_path(path, members[from].0));
        }
        if first_anomaly(members, path, bound, from) is Some {
            if member_tree(members[from].1, bound).is_none() {
                assert(member_tree(members[from].1, bound).is_none());
            } else {
                let i = choose|i: int|
                    from + 1 <= i < members.len() && member_tree(
                        (#[trigger] members[i]).1,
                        bound,
                    ).is_none();
                assert(from <= i < members.len());
            }
        } else {
            assert forall|i: int| from <= i < members.len() implies member_tree(
                (#[trigger] members[i]).1,
                bound,
            ) is Some by {
                if i > from {
                    assert(from + 1 <= i);
                }
            }
        }
    }
}

/// A document has an anomaly as a configuration exactly if it stands for
/// none.
pub proof fn lemma_config_anomaly(value: Value)
    ensures
        config_anomaly(value) is Some <==> config_of(value).is_none(),
{
    lemma_anomaly_iff_no_tree(value, Seq::empty());
}

/// Finds the first thing in a document that is neither a string nor an
/// object, and returns its identifier under `path`, the identifier of the
/// document itself.
pub fn find_anomaly(value: &Value, path: String) -> (found: Option<String>)
    ensures
        match found {
            Some(identifier) => anomaly_of(*value, path@) == Some(identifier@),
            None => anomaly_of(*value, path@).is_none(),
        },
    decreases json_depth(*value),
{
    match shape_of(value) {
        JsonShape::Text(_) => None,
        JsonShape::Other => Some(path),
        JsonShape::Object(members) => {
            let ghost models = match json_shape(*value) {
                ShapeModel::Object(models) => models,
                _ => Seq::empty(),
            };
            let ghost bound = json_depth(*value);
            let mut i: usize = 0;
            while i < members.len()
                invariant
                    i <= members.len() == models.len(),
                    bound == json_depth(*value),
                    json_shape(*value) == ShapeModel::Object(models),
                    forall|k: int|
                        0 <= k < members@.len() ==> (#[trigger] models[k]) == (
                            members@[k].0@,
                            *members@[k].1,
                        ),
                    forall|k: int|
                        0 <= k < members@.len() ==> json_depth(*#[trigger] members@[k].1) < bound,
                    anomaly_of(*value, path@) == first_anomaly(models, path@, bound, i as int),
                decreases members.len() - i,
            {
                let (key, member) = members[i];
                assert(models[i as int] == (key@, *member));
                match find_anomaly(member, extend_path(path.as_str(), key)) {
                    Some(identifier) => {
                        return Some(identifier);
                    },
                    None => {},
                }
                i += 1;
            }
            None
        },
    }
}

/// Finds what keeps a document from being a configuration and returns its
/// identifier: the empty one where the document itself is no object.
pub fn find_config_anomaly(root: &Value) -> (found: Option<String>)
    ensures
        match found {
            Some(identifier) => config_anomaly(*root) == Some(identifier@),
            None => config_anomaly(*root).is_none(),
        },
        found is Some <==> config_of(*root).is_none(),
{
    proof {
        lemma_config_anomaly(*root);
    }
    match shape_of(root) {
        JsonShape::Object(_) => find_anomaly(root, String::new()),
        _ => Some(String::new()),
    }
}

/// No label among `entries`, at any depth, holds a slash.
pub open spec fn slash_free_labels(entries: Seq<(Seq<char>, TreeModel)>) -> bool
    decreases entries,
{
    forall|i: int|
        0 <= i < entries.len() ==> slash_free((#[trigger] entries[i]).0) && match entries[i].1 {
            TreeModel::Leaf(_) => true,
            TreeModel::Branch(children) => slash_free_labels(children),
        }
}

/// No group among `entries`, at any depth, is empty.
pub open spec fn no_empty_groups(entries: Seq<(Seq<char>, TreeModel)>) -> bool
    decreases entries,
{
    forall|i: int|
        0 <= i < entries.len() ==> match (#[trigger] entries[i]).1 {
            TreeModel::Leaf(_) => true,
            TreeModel::Branch(children) => children.len() > 0 && no_empty_groups(children),
        }
}

impl TreeModel {
    /// The tree has nothing below it: it is a command or an empty group.
    pub open spec fn childless(self) -> bool {
        match self {
            TreeModel::Leaf(_) => true,
            TreeModel::Branch(children) => children.len() == 0,
        }
    }
}

/// Every identifier made from the root entries `entries` leads back to its
/// node: no label holds a slash, and a root entry with the empty label has
/// nothing below it.
pub open spec fn addressable(entries: Seq<(Seq<char>, TreeModel)>) -> bool {
    &&& slash_free_labels(entries)
    &&& forall|i: int|
        0 <= i < entries.len() && (#[trigger] entries[i]).0.len() == 0 ==> entries[i].1.childless()
}

/// Tells whether no label among `entries`, at any depth, holds a slash.
pub fn has_slash_free_labels(entries: &Vec<(String, CollectionTree)>) -> (free: bool)
    ensures
        free == slash_free_labels(entries_view(entries@)),
    decreases entries,
{
    let ghost all = entries_view(entries@);
    let mut i: usize = 0;
    while i < entries.len()
        invariant
            i <= entries.len(),
            all == entries_view(entries@),
            forall|k: int|
                0 <= k < i ==> slash_free((#[trigger] all[k]).0) && match all[k].1 {
                    TreeModel::Leaf(_) => true,
                    TreeModel::Branch(children) => slash_free_labels(children),
                },
        decreases entries.len() - i,
    {
        assert(all[i as int] == (entries@[i as int].0@, entries@[i as int].1@));
        if !is_slash_free(entries[i].0.as_str()) {
            return false;
        }
        match &entries[i].1 {
            CollectionTree::Leaf(_) => {},
            CollectionTree::Branch(children) => {
                if !has_slash_free_labels(children) {
                    return false;
                }
            },
        }
        i += 1;
    }
    true
}

/// Tells whether every identifier made from the root entries `config` leads
/// back to its node.
pub fn is_addressable(config: &Vec<(String, CollectionTree)>) -> (fine: bool)
    ensures
        fine == addressable(entries_view(config@)),
{
    if !has_slash_free_labels(config) {
        return false;
    }
    let ghost all = entries_view(config@);
    let mut i: usize = 0;
    while i < config.len()
        invariant
            i <= config.len(),
            all == entries_view(config@),
            forall|k: int| 0 <= k < i && (#[trigger] all[k]).0.len() == 0 ==> all[k].1.childless(),
        decreases config.len() - i,
    {
        assert(all[i as int] == (config@[i as int].0@, config@[i as int].1@));
        if config[i].0.as_str().unicode_len() == 0 {
            match &config[i].1 {
                CollectionTree::Leaf(_) => {},
                CollectionTree::Branch(children) => {
                    if children.len() > 0 {
                        assert(all[i as int].1 == TreeModel::Branch(entries_view(children@)));
                        assert(entries_view(children@).len() > 0);
                        return false;
                    }
                },
            }
        }
        i += 1;
    }
    true
}

/// What `lookup` finds is an entry with the label; it finds nothing only if
/// no entry has the label.
pub proof fn lemma_lookup_found(entries: Seq<(Seq<char>, TreeModel)>, label: Seq<char>)
    ensures
        match lookup(entries, label) {
            Some(tree) => exists|i: int| 0 <= i < entries.len() && entries[i] == (label, tree),
            None => forall|i: int| 0 <= i < entries.len() ==> (#[trigger] entries[i]).0 != label,
        },
    decreases entries.len(),
{
    if entries.len() > 0 {
        let rest = entries.drop_first();
        if entries[0].0 == label {
            assert(entries[0] == (label, entries[0].1));
        } else {
            lemma_lookup_found(rest, label);
            match lookup(rest, label) {
                Some(tree) => {
                    let i = choose|i: int| 0 <= i < rest.len() && rest[i] == (label, tree);
                    assert(entries[i + 1] == (label, tree));
                },
                None => {
                    assert forall|i: int| 0 <= i < entries.len() implies (
                    #[trigger] entries[i]).0 != label by {
                        if i > 0 {
                            assert(rest[i - 1] == entries[i]);
                        }
                    }
                },
            }
        }
    }
}

/// Where labels are distinct, every entry is found under its own label.
pub proof fn lemma_lookup_at(entries: Seq<(Seq<char>, TreeModel)>, at: int)
    requires
        labels_distinct(entries),
        0 <= at < entries.len(),
    ensures
        lookup(entries, entries[at].0) == Some(entries[at].1),
    decreases entries.len(),
{
    if at > 0 {
        let rest = entries.drop_first();
        assert(entries[0].0 != entries[at].0);
        assert forall|i: int, j: int| 0 <= i < j < rest.len() implies (#[trigger] rest[i]).0 != (
        #[trigger] rest[j]).0 by {
            assert(rest[i] == entries[i + 1]);
            assert(rest[j] == entries[j + 1]);
        }
        assert(rest[at - 1] == entries[at]);
        lemma_lookup_at(rest, at - 1);
    }
}

/// An entry added at the end changes nothing about what was found before.
pub proof fn lemma_lookup_drop_last(entries: Seq<(Seq<char>, TreeModel)>, label: Seq<char>)
    requires
        entries.len() > 0,
        lookup(entries.drop_last(), label) is Some,
    ensures
        lookup(entries, label) == lookup(entries.drop_last(), label),
    decreases entries.len(),
{
    let front = entries.drop_last();
    assert(front.len() > 0);
    assert(front[0] == entries[0]);
    if entries[0].0 != label {
        assert(entries.drop_first().drop_last() =~= front.drop_first());
        lemma_lookup_drop_last(entries.drop_first(), label);
    }
}

/// An entry added at the end changes nothing about where a walk led before.
pub proof fn lemma_walk_drop_last(entries: Seq<(Seq<char>, TreeModel)>, parts: Seq<Seq<char>>)
    requires
        entries.len() > 0,
        walk(entries.drop_last(), parts) is Some,
    ensures
        walk(entries, parts) == walk(entries.drop_last(), parts),
{
    lemma_lookup_drop_last(entries, parts[0]);
}

/// In a tree without empty groups a walk ends at a command or at a group
/// that holds something.
pub proof fn lemma_walk_no_empty_groups(entries: Seq<(Seq<char>, TreeModel)>, parts: Seq<Seq<char>>)
    requires
        no_empty_groups(entries),
        walk(entries, parts) is Some,
    ensures
        match walk(entries, parts) {
            Some((_, TreeModel::Branch(children))) => children.len() > 0,
            _ => true,
        },
    decreases parts.len(),
{
    lemma_lookup_found(entries, parts[0]);
    let tree = lookup(entries, parts[0])->0;
    let i = choose|i: int| 0 <= i < entries.len() && entries[i] == (parts[0], tree);
    assert(entries[i].1 == tree);
    if parts.len() > 1 {
        match tree {
            TreeModel::Branch(children) => {
                lemma_walk_no_empty_groups(children, parts.drop_first());
            },
            TreeModel::Leaf(_) => {},
        }
    }
}

} // verus!
