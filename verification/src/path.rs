//! Identifiers: the slash-delimited address of a node, counted from the root.

use vstd::prelude::*;
use vstd::string::*;

verus! {

/// The character that separates the labels of an identifier.
pub open spec fn separator() -> char {
    '/'
}

/// The identifier of the child `label` of the node addressed by `prefix`.
pub open spec fn child_path(prefix: Seq<char>, label: Seq<char>) -> Seq<char> {
    prefix.push(separator()) + label
}

/// `text` without the slashes it begins with.
pub open spec fn trim_slashes(text: Seq<char>) -> Seq<char>
    decreases text.len(),
{
    if text.len() > 0 && text[0] == separator() {
        trim_slashes(text.drop_first())
    } else {
        text
    }
}

/// The pieces of `text` between its slashes, in order. There is always at
/// least one piece; a slash at either end leaves an empty piece there.
pub open spec fn split_path(text: Seq<char>) -> Seq<Seq<char>>
    decreases text.len(),
{
    if text.len() == 0 {
        seq![Seq::empty()]
    } else {
        let before = split_path(text.drop_last());
        if text.last() == separator() {
            before.push(Seq::empty())
        } else {
            before.drop_last().push(before.last().push(text.last()))
        }
    }
}

/// The labels that an identifier names, outermost first: the leading slashes
/// are dropped and the rest is cut at every slash.
pub open spec fn components(identifier: Seq<char>) -> Seq<Seq<char>> {
    split_path(trim_slashes(identifier))
}

/// The texts of a sequence of string slices.
pub open spec fn texts(parts: Seq<&str>) -> Seq<Seq<char>> {
    parts.map_values(|part: &str| part@)
}

/// Builds the identifier of the child `label` under `prefix`.
pub fn extend_path(prefix: &str, label: &str) -> (path: String)
    ensures
        path@ == child_path(prefix@, label@),
{
    proof {
        reveal_strlit("/");
    }
    let path = String::from_str(prefix).concat("/").concat(label);
    assert(path@ =~= child_path(prefix@, label@));
    path
}

/// Cuts an identifier into the labels it names.
pub fn path_components<'a>(identifier: &'a str) -> (parts: Vec<&'a str>)
    ensures
        texts(parts@) == components(identifier@),
{
    let length = identifier.unicode_len();
    let mut first: usize = 0;
    assert(identifier@.skip(0) =~= identifier@);
    while first < length && identifier.get_char(first) == '/'
        invariant
            first <= length == identifier@.len(),
            trim_slashes(identifier@) == trim_slashes(identifier@.skip(first as int)),
        decreases length - first,
    {
        assert(identifier@.skip(first as int).drop_first() =~= identifier@.skip(first + 1));
        first += 1;
    }
    let ghost rest = identifier@.skip(first as int);
    assert(trim_slashes(identifier@) == rest);

    let mut parts: Vec<&'a str> = Vec::new();
    let mut start: usize = first;
    let mut at: usize = first;
    assert(identifier@.subrange(first as int, first as int) =~= Seq::<char>::empty());
    assert(texts(parts@).push(Seq::<char>::empty()) =~= seq![Seq::<char>::empty()]);
    while at < length
        invariant
            first <= start <= at <= length == identifier@.len(),
            split_path(identifier@.subrange(first as int, at as int)) == texts(parts@).push(
                identifier@.subrange(start as int, at as int),
            ),
        decreases length - at,
    {
        let ghost seen = identifier@.subrange(first as int, at as int);
        let ghost more = identifier@.subrange(first as int, at + 1);
        assert(more.drop_last() =~= seen);
        assert(more.last() == identifier@[at as int]);
        if identifier.get_char(at) == '/' {
            let piece = identifier.substring_char(start, at);
            let ghost before = texts(parts@);
            parts.push(piece);
            assert(texts(parts@) =~= before.push(piece@));
            start = at + 1;
            assert(identifier@.subrange(start as int, at + 1) =~= Seq::<char>::empty());
        } else {
            assert(identifier@.subrange(start as int, at + 1) =~= identifier@.subrange(
                start as int,
                at as int,
            ).push(identifier@[at as int]));
            assert(texts(parts@).push(identifier@.subrange(start as int, at as int)).drop_last()
                =~= texts(parts@));
        }
        at += 1;
    }
    assert(identifier@.subrange(first as int, length as int) =~= rest);
    let piece = identifier.substring_char(start, length);
    let ghost before = texts(parts@);
    parts.push(piece);
    assert(texts(parts@) =~= before.push(piece@));
    parts
}


/// No slash occurs in `label`.
pub open spec fn slash_free(label: Seq<char>) -> bool {
    forall|i: int| 0 <= i < label.len() ==> label[i] != separator()
}

/// Tells whether no slash occurs in `label`.
pub fn is_slash_free(label: &str) -> (free: bool)
    ensures
        free == slash_free(label@),
{
    let length = label.unicode_len();
    let mut i: usize = 0;
    while i < length
        invariant
            i <= length == label@.len(),
            forall|k: int| 0 <= k < i ==> label@[k] != separator(),
        decreases length - i,
    {
        if label.get_char(i) == '/' {
            return false;
        }
        i += 1;
    }
    true
}

/// A text always splits into at least one piece.
pub proof fn lemma_split_nonempty(text: Seq<char>)
    ensures
        split_path(text).len() >= 1,
    decreases text.len(),
{
    if text.len() > 0 {
        lemma_split_nonempty(text.drop_last());
    }
}

/// A text without a slash is its own single piece.
pub proof fn lemma_split_label(label: Seq<char>)
    requires
        slash_free(label),
    ensures
        split_path(label) == seq![label],
    decreases label.len(),
{
    if label.len() > 0 {
        lemma_split_label(label.drop_last());
        assert(label.drop_last().push(label.last()) =~= label);
        assert(seq![label.drop_last()].drop_last().push(label) =~= seq![label]);
    } else {
        assert(label =~= Seq::empty());
    }
}

/// A label in front of a slash is the first piece; the pieces of what
/// follows the slash come after it.
pub proof fn lemma_split_child(label: Seq<char>, rest: Seq<char>)
    requires
        slash_free(label),
    ensures
        split_path(label.push(separator()) + rest) == seq![label] + split_path(rest),
    decreases rest.len(),
{
    let whole = label.push(separator()) + rest;
    if rest.len() == 0 {
        assert(whole =~= label.push(separator()));
        assert(whole.drop_last() =~= label);
        lemma_split_label(label);
        assert(seq![label].push(Seq::<char>::empty()) =~= seq![label] + seq![
            Seq::<char>::empty(),
        ]);
    } else {
        let shorter = rest.drop_last();
        lemma_split_child(label, shorter);
        lemma_split_nonempty(shorter);
        assert(whole.drop_last() =~= label.push(separator()) + shorter);
        assert(whole.last() == rest.last());
        let before = split_path(whole.drop_last());
        let pieces = split_path(shorter);
        assert(before == seq![label] + pieces);
        if rest.last() == separator() {
            assert(before.push(Seq::<char>::empty()) =~= seq![label] + pieces.push(
                Seq::<char>::empty(),
            ));
        } else {
            assert(before.last() == pieces.last());
            assert(before.drop_last() =~= seq![label] + pieces.drop_last());
            assert(before.drop_last().push(before.last().push(rest.last())) =~= seq![label]
                + pieces.drop_last().push(pieces.last().push(rest.last())));
        }
    }
}

/// A text that begins with a slash has an empty first piece and at least
/// one more piece.
pub proof fn lemma_split_leading_slash(text: Seq<char>)
    requires
        text.len() > 0,
        text[0] == separator(),
    ensures
        split_path(text).len() >= 2,
        split_path(text)[0].len() == 0,
    decreases text.len(),
{
    let shorter = text.drop_last();
    if shorter.len() > 0 {
        assert(shorter[0] == text[0]);
        lemma_split_leading_slash(shorter);
    } else {
        assert(text.last() == separator());
        assert(split_path(shorter) =~= seq![Seq::<char>::empty()]);
    }
}

} // verus!
