//! Candidate paths: an anchor and the components below it.
//!
//! A path is handled as structure, never as text to be cut: `parent`,
//! `ancestor` and `child` work on the list of components, and the text form
//! is read by `parse` and written by `to_text` alone.

use vstd::prelude::*;

use crate::text::{chars_of, text_of};

verus! {

/// The conventions by which a path is written as text.
#[derive(Debug, Clone, Copy, PartialEq, Eq, Structural)]
pub enum PathStyle {
    /// `/` separates components and a leading `/` is the root.
    Posix,
    /// `\` and `/` both separate components, `\` is written, and a letter
    /// followed by `:` names a drive.
    Windows,
}

/// What a path starts from.
#[derive(Debug, Clone, Copy, PartialEq, Eq, Structural)]
pub enum Anchor {
    /// Nothing: the path is relative, and with no components it is `.`.
    Relative,
    /// The filesystem root.
    Root,
    /// The root of the drive with this letter.
    Drive(char),
}

/// The mathematical value of a path.
pub struct PathView {
    pub anchor: Anchor,
    pub components: Seq<Seq<char>>,
}

/// A filesystem path carried through the resolution pipeline.
#[derive(Debug, PartialEq, Eq)]
pub struct CandidatePath {
    pub anchor: Anchor,
    pub components: Vec<String>,
}

/// The texts of a list of names.
pub open spec fn texts(names: Seq<String>) -> Seq<Seq<char>> {
    names.map_values(|s: String| s@)
}

/// The values of a list of paths.
pub open spec fn views(paths: Seq<CandidatePath>) -> Seq<PathView> {
    paths.map_values(|p: CandidatePath| p@)
}

impl View for CandidatePath {
    type V = PathView;

    open spec fn view(&self) -> PathView {
        PathView { anchor: self.anchor, components: texts(self.components@) }
    }
}

impl PathView {
    /// The number of components below the anchor.
    pub open spec fn depth(self) -> nat {
        self.components.len()
    }

    /// The anchor alone: the root that every ancestor walk ends at.
    pub open spec fn root(self) -> PathView {
        PathView { anchor: self.anchor, components: Seq::empty() }
    }

    /// The path `hops` levels up, or the root where there are fewer levels.
    pub open spec fn ancestor(self, hops: nat) -> PathView {
        if hops >= self.components.len() {
            self.root()
        } else {
            PathView {
                anchor: self.anchor,
                components: self.components.take(self.components.len() - hops),
            }
        }
    }

    /// The containing directory, or the path itself where it has none.
    pub open spec fn parent(self) -> PathView {
        self.ancestor(1)
    }

    /// The path one level down, in the directory `name`.
    pub open spec fn child(self, name: Seq<char>) -> PathView {
        PathView { anchor: self.anchor, components: self.components.push(name) }
    }

    /// The last component, where there is one.
    pub open spec fn name(self) -> Option<Seq<char>> {
        if self.components.len() == 0 {
            None
        } else {
            Some(self.components.last())
        }
    }
}

/// A copy of the first `keep` names.
pub fn copy_names(names: &Vec<String>, keep: usize) -> (copy: Vec<String>)
    requires
        keep <= names.len(),
    ensures
        texts(copy@) == texts(names@).take(keep as int),
{
    let mut copy: Vec<String> = Vec::new();
    let mut i: usize = 0;
    while i < keep
        invariant
            i <= keep <= names.len(),
            copy.len() == i,
            forall|j: int| 0 <= j < i ==> (#[trigger] copy@[j])@ == names@[j]@,
        decreases keep - i,
    {
        copy.push(names[i].clone());
        i += 1;
    }
    assert(texts(copy@) =~= texts(names@).take(keep as int));
    copy
}

impl Clone for CandidatePath {
    fn clone(&self) -> (copy: Self)
        ensures
            copy@ == self@,
    {
        let components = copy_names(&self.components, self.components.len());
        assert(texts(components@) =~= texts(self.components@));
        CandidatePath { anchor: self.anchor, components }
    }
}

impl CandidatePath {
    /// The path that is the anchor alone.
    pub fn at(anchor: Anchor) -> (p: CandidatePath)
        ensures
            p@ == (PathView { anchor, components: Seq::empty() }),
    {
        let p = CandidatePath { anchor, components: Vec::new() };
        assert(p@.components =~= Seq::empty());
        p
    }

    /// The number of components below the anchor.
    pub fn depth(&self) -> (d: usize)
        ensures
            d == self@.depth(),
    {
        self.components.len()
    }

    /// The anchor of this path with nothing below it.
    pub fn root(&self) -> (p: CandidatePath)
        ensures
            p@ == self@.root(),
    {
        let p = CandidatePath { anchor: self.anchor, components: Vec::new() };
        assert(p@.components =~= Seq::empty());
        p
    }

    /// The path `hops` levels up. Walking past the root stays at the root:
    /// the result always has the anchor of `self`.
    pub fn ancestor(&self, hops: usize) -> (p: CandidatePath)
        ensures
            p@ == self@.ancestor(hops as nat),
    {
        let keep: usize = if hops >= self.components.len() {
            0
        } else {
            self.components.len() - hops
        };
        let components = copy_names(&self.components, keep);
        let p = CandidatePath { anchor: self.anchor, components };
        assert(p@.components =~= self@.ancestor(hops as nat).components);
        p
    }

    /// The containing directory, or the path itself where it has none.
    pub fn parent(&self) -> (p: CandidatePath)
        ensures
            p@ == self@.parent(),
    {
        self.ancestor(1)
    }

    /// The path one level down, in the directory `name`.
    pub fn child(&self, name: &str) -> (p: CandidatePath)
        ensures
            p@ == self@.child(name@),
    {
        let mut p = self.clone();
        p.components.push(name.to_owned());
        assert(texts(p.components@) =~= self@.components.push(name@));
        p
    }

    /// The last component, where there is one.
    pub fn name(&self) -> (n: Option<&String>)
        ensures
            match n {
                Some(s) => self@.name() == Some(s@),
                None => self@.name().is_none(),
            },
    {
        if self.components.len() == 0 {
            None
        } else {
            Some(&self.components[self.components.len() - 1])
        }
    }

    /// Whether the two paths are the same path.
    pub fn same_as(&self, other: &CandidatePath) -> (same: bool)
        ensures
            same == (self@ == other@),
    {
        if self.anchor != other.anchor {
            return false;
        }
        if self.components.len() != other.components.len() {
            assert(self@.components.len() != other@.components.len());
            return false;
        }
        let mut i: usize = 0;
        while i < self.components.len()
            invariant
                i <= self.components.len(),
                self.components.len() == other.components.len(),
                forall|j: int| 0 <= j < i ==> self@.components[j] == other@.components[j],
            decreases self.components.len() - i,
        {
            if self.components[i] != other.components[i] {
                assert(self@.components[i as int] != other@.components[i as int]);
                return false;
            }
            i += 1;
        }
        assert(self@.components =~= other@.components);
        true
    }
}

/// Whether `c` separates components in a path written in `style`.
pub open spec fn is_separator(c: char, style: PathStyle) -> bool {
    c == '/' || (style == PathStyle::Windows && c == '\\')
}

/// The separator that a path is written with in `style`.
pub open spec fn separator(style: PathStyle) -> char {
    match style {
        PathStyle::Posix => '/',
        PathStyle::Windows => '\\',
    }
}

/// Whether `c` can name a drive.
pub open spec fn is_drive_letter(c: char) -> bool {
    ('a' <= c && c <= 'z') || ('A' <= c && c <= 'Z')
}

/// The pieces of `text` between its separators, empty ones included: one
/// more than there are separators.
pub open spec fn pieces(text: Seq<char>, style: PathStyle) -> Seq<Seq<char>>
    decreases text.len(),
{
    if text.len() == 0 {
        seq![Seq::empty()]
    } else {
        let before = pieces(text.drop_last(), style);
        if is_separator(text.last(), style) {
            before.push(Seq::empty())
        } else {
            before.update(before.len() - 1, before.last().push(text.last()))
        }
    }
}

/// There is always at least one piece.
pub proof fn lemma_pieces_nonempty(text: Seq<char>, style: PathStyle)
    ensures
        pieces(text, style).len() >= 1,
    decreases text.len(),
{
    if text.len() > 0 {
        lemma_pieces_nonempty(text.drop_last(), style);
    }
}

/// Whether a piece counts as a component: it is neither empty nor `.`.
pub open spec fn is_component(piece: Seq<char>) -> bool {
    piece.len() > 0 && piece != seq!['.']
}

/// The components that `text` names: its pieces, but for the empty ones
/// and the single dots.
pub open spec fn components_of(text: Seq<char>, style: PathStyle) -> Seq<Seq<char>> {
    pieces(text, style).filter(|piece: Seq<char>| is_component(piece))
}

/// The prefix that marks an extended-length path on Windows: `\\?\`.
pub open spec fn extended_prefix() -> Seq<char> {
    seq!['\\', '\\', '?', '\\']
}

/// The text after every leading extended-length prefix.
pub open spec fn without_extended_prefix(text: Seq<char>) -> Seq<char>
    decreases text.len(),
{
    if extended_prefix().is_prefix_of(text) {
        without_extended_prefix(text.skip(4))
    } else {
        text
    }
}

/// The text that a path is read from: in Windows style, what follows the
/// extended-length prefixes.
pub open spec fn native_text(text: Seq<char>, style: PathStyle) -> Seq<char> {
    if style == PathStyle::Windows {
        without_extended_prefix(text)
    } else {
        text
    }
}

/// Whether `text` begins with a drive specifier: a letter and a colon, in
/// Windows style.
pub open spec fn has_drive(text: Seq<char>, style: PathStyle) -> bool {
    style == PathStyle::Windows && text.len() >= 2 && is_drive_letter(text[0]) && text[1] == ':'
}

/// What a text that is written in `style` is anchored at.
pub open spec fn anchor_of(text: Seq<char>, style: PathStyle) -> Anchor {
    if has_drive(text, style) {
        Anchor::Drive(text[0])
    } else if text.len() >= 1 && is_separator(text[0], style) {
        Anchor::Root
    } else {
        Anchor::Relative
    }
}

/// The text below the anchor: all of it but a drive specifier.
pub open spec fn below_anchor(text: Seq<char>, style: PathStyle) -> Seq<char> {
    if has_drive(text, style) {
        text.skip(2)
    } else {
        text
    }
}

/// The path that `text` denotes in `style`. Empty components and single
/// dots are passed over, and in Windows style so is an extended-length
/// prefix.
pub open spec fn parsed(text: Seq<char>, style: PathStyle) -> PathView {
    let plain = native_text(text, style);
    PathView {
        anchor: anchor_of(plain, style),
        components: components_of(below_anchor(plain, style), style),
    }
}

/// The components, each followed by the separator but the last.
pub open spec fn joined(components: Seq<Seq<char>>, sep: char) -> Seq<char>
    decreases components.len(),
{
    if components.len() == 0 {
        Seq::empty()
    } else if components.len() == 1 {
        components[0]
    } else {
        joined(components.drop_last(), sep) + seq![sep] + components.last()
    }
}

/// How an anchor is written in `style`.
pub open spec fn anchor_text(anchor: Anchor, style: PathStyle) -> Seq<char> {
    match anchor {
        Anchor::Relative => Seq::empty(),
        Anchor::Root => seq![separator(style)],
        Anchor::Drive(letter) => seq![letter, ':', separator(style)],
    }
}

/// How a path is written in `style`. A relative path with no components
/// is `.`, so that no path is written as the empty text.
pub open spec fn rendered(path: PathView, style: PathStyle) -> Seq<char> {
    if path.anchor == Anchor::Relative && path.components.len() == 0 {
        seq!['.']
    } else {
        anchor_text(path.anchor, style) + joined(path.components, separator(style))
    }
}

impl PathView {
    /// Whether every component is a name: not empty, and not `.`.
    pub open spec fn well_formed(self) -> bool {
        forall|i: int| 0 <= i < self.components.len() ==> is_component(#[trigger] self.components[i])
    }
}

impl PathStyle {
    /// Whether `c` separates components in this style.
    pub fn separates(self, c: char) -> (yes: bool)
        ensures
            yes == is_separator(c, self),
    {
        c == '/' || (self == PathStyle::Windows && c == '\\')
    }

    /// The separator written in this style.
    pub fn separator(self) -> (c: char)
        ensures
            c == separator(self),
    {
        match self {
            PathStyle::Posix => '/',
            PathStyle::Windows => '\\',
        }
    }
}

/// Cuts `text` at its separators.
pub fn split_text(text: &str, style: PathStyle) -> (parts: Vec<String>)
    ensures
        texts(parts@) == pieces(text@, style),
{
    let chars = chars_of(text);
    let mut parts: Vec<String> = Vec::new();
    let mut start: usize = 0;
    let mut i: usize = 0;
    assert(chars@.subrange(0, 0) =~= Seq::<char>::empty());
    assert(chars@.take(0).len() == 0);
    assert(texts(parts@).push(chars@.subrange(0, 0)) =~= pieces(chars@.take(0), style));
    while i < chars.len()
        invariant
            start <= i <= chars.len(),
            chars@ == text@,
            texts(parts@).push(chars@.subrange(start as int, i as int)) == pieces(
                chars@.take(i as int),
                style,
            ),
        decreases chars.len() - i,
    {
        let ghost done = texts(parts@);
        let ghost open = chars@.subrange(start as int, i as int);
        proof {
            let next = chars@.take(i + 1);
            assert(next.drop_last() =~= chars@.take(i as int));
            assert(next.last() == chars@[i as int]);
        }
        if style.separates(chars[i]) {
            parts.push(text_of(&chars, start, i));
            assert(texts(parts@) =~= done.push(open));
            start = i + 1;
            assert(chars@.subrange(start as int, i + 1) =~= Seq::<char>::empty());
        } else {
            assert(chars@.subrange(start as int, i + 1) =~= open.push(chars@[i as int]));
            assert(done.push(open).update(done.len() as int, open.push(chars@[i as int]))
                =~= done.push(open.push(chars@[i as int])));
        }
        i += 1;
    }
    let ghost done = texts(parts@);
    parts.push(text_of(&chars, start, chars.len()));
    assert(texts(parts@) =~= done.push(chars@.subrange(start as int, chars.len() as int)));
    assert(chars@.take(chars.len() as int) =~= chars@);
    parts
}

/// Removes every leading `\\?\` from `text`.
pub fn strip_extended_prefix(text: &str) -> (stripped: String)
    ensures
        stripped@ == without_extended_prefix(text@),
{
    let chars = chars_of(text);
    let mut start: usize = 0;
    assert(chars@.skip(0) =~= text@);
    while chars.len() - start >= 4 && chars[start] == '\\' && chars[start + 1] == '\\' && chars[start
        + 2] == '?' && chars[start + 3] == '\\'
        invariant
            start <= chars.len(),
            chars@ == text@,
            without_extended_prefix(text@) == without_extended_prefix(chars@.skip(start as int)),
        decreases chars.len() - start,
    {
        proof {
            let rest = chars@.skip(start as int);
            assert(extended_prefix() =~= rest.subrange(0, 4));
            assert(rest.skip(4) =~= chars@.skip(start + 4));
        }
        start += 4;
    }
    proof {
        let rest = chars@.skip(start as int);
        if extended_prefix().is_prefix_of(rest) {
            assert(rest.subrange(0, 4) == extended_prefix());
            assert(rest[0] == extended_prefix()[0]);
            assert(rest[1] == extended_prefix()[1]);
            assert(rest[2] == extended_prefix()[2]);
            assert(rest[3] == extended_prefix()[3]);
        }
        assert(rest =~= chars@.subrange(start as int, chars.len() as int));
    }
    text_of(&chars, start, chars.len())
}

/// Whether `c` can name a drive.
pub fn names_drive(c: char) -> (yes: bool)
    ensures
        yes == is_drive_letter(c),
{
    ('a' <= c && c <= 'z') || ('A' <= c && c <= 'Z')
}

/// The parts that are components, in order.
pub fn keep_components(parts: &Vec<String>) -> (kept: Vec<String>)
    ensures
        texts(kept@) == texts(parts@).filter(|piece: Seq<char>| is_component(piece)),
{
    let ghost keep = |piece: Seq<char>| is_component(piece);
    let ghost all = texts(parts@);
    let mut kept: Vec<String> = Vec::new();
    let mut i: usize = 0;
    assert(all.take(0).filter(keep) =~= Seq::<Seq<char>>::empty()) by {
        reveal(Seq::filter);
    }
    assert(texts(kept@) =~= all.take(0).filter(keep));
    while i < parts.len()
        invariant
            i <= parts.len(),
            all == texts(parts@),
            keep == |piece: Seq<char>| is_component(piece),
            texts(kept@) == all.take(i as int).filter(keep),
        decreases parts.len() - i,
    {
        let part = &parts[i];
        let ghost before = texts(kept@);
        proof {
            reveal_strlit(".");
            assert(all.take(i + 1) =~= all.take(i as int).push(part@));
            all.take(i as int).lemma_filter_push(part@, keep);
            assert("."@ =~= seq!['.']);
        }
        if part.as_str().unicode_len() > 0 && *part != ".".to_owned() {
            kept.push(part.clone());
            assert(texts(kept@) =~= before.push(part@));
        }
        i += 1;
    }
    assert(all.take(parts.len() as int) =~= all);
    kept
}

impl CandidatePath {
    /// Reads a path written in `style`.
    pub fn parse(text: &str, style: PathStyle) -> (path: CandidatePath)
        ensures
            path@ == parsed(text@, style),
    {
        let plain = match style {
            PathStyle::Windows => strip_extended_prefix(text),
            PathStyle::Posix => text.to_owned(),
        };
        let chars = chars_of(plain.as_str());
        let drive = style == PathStyle::Windows && chars.len() >= 2 && names_drive(chars[0])
            && chars[1] == ':';
        let anchor = if drive {
            Anchor::Drive(chars[0])
        } else if chars.len() >= 1 && style.separates(chars[0]) {
            Anchor::Root
        } else {
            Anchor::Relative
        };
        let below = if drive {
            text_of(&chars, 2, chars.len())
        } else {
            text_of(&chars, 0, chars.len())
        };
        assert(below@ =~= below_anchor(native_text(text@, style), style));
        let parts = split_text(below.as_str(), style);
        let components = keep_components(&parts);
        CandidatePath { anchor, components }
    }

    /// Writes the path in `style`.
    pub fn to_text(&self, style: PathStyle) -> (text: String)
        ensures
            text@ == rendered(self@, style),
    {
        let sep = style.separator();
        let mut text = String::new();
        match self.anchor {
            Anchor::Relative => {
                if self.components.len() == 0 {
                    text.push('.');
                    assert(text@ =~= seq!['.']);
                    return text;
                }
                assert(text@ =~= anchor_text(self.anchor, style));
            },
            Anchor::Root => {
                text.push(sep);
                assert(text@ =~= anchor_text(self.anchor, style));
            },
            Anchor::Drive(letter) => {
                text.push(letter);
                text.push(':');
                text.push(sep);
                assert(text@ =~= anchor_text(self.anchor, style));
            },
        }
        let ghost names = texts(self.components@);
        let mut i: usize = 0;
        assert(text@ =~= anchor_text(self.anchor, style) + joined(names.take(0), sep));
        while i < self.components.len()
            invariant
                i <= self.components.len(),
                sep == separator(style),
                names == texts(self.components@),
                text@ == anchor_text(self.anchor, style) + joined(names.take(i as int), sep),
            decreases self.components.len() - i,
        {
            proof {
                let next = names.take(i + 1);
                assert(next.drop_last() =~= names.take(i as int));
                assert(next.last() == names[i as int]);
                assert(joined(names.take(0), sep) =~= Seq::<char>::empty());
            }
            if i > 0 {
                text.push(sep);
            }
            text.append(self.components[i].as_str());
            assert(text@ =~= anchor_text(self.anchor, style) + joined(names.take(i + 1), sep));
            i += 1;
        }
        assert(names.take(self.components.len() as int) =~= names);
        text
    }
}

/// Whether `path` is among the first `upto` of `paths`.
pub fn is_among(path: &CandidatePath, paths: &Vec<CandidatePath>, upto: usize) -> (found: bool)
    requires
        upto <= paths.len(),
    ensures
        found == views(paths@).take(upto as int).contains(path@),
{
    let mut i: usize = 0;
    while i < upto
        invariant
            i <= upto <= paths.len(),
            forall|j: int| 0 <= j < i ==> views(paths@)[j] != path@,
        decreases upto - i,
    {
        if paths[i].same_as(path) {
            assert(views(paths@).take(upto as int)[i as int] == path@);
            return true;
        }
        i += 1;
    }
    false
}

} // verus!
