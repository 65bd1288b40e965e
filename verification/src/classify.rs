//! The query classifier: what kind of request a raw query is.

use vstd::prelude::*;

use crate::path::{
    has_drive, is_separator, names_drive, pieces, split_text, texts, Anchor, PathStyle,
};
use crate::text::{chars_of, text_of};

verus! {

/// Whether `c` separates the fragments of a query: `/` and `\` both do, in
/// every style.
pub open spec fn is_query_separator(c: char) -> bool {
    is_separator(c, PathStyle::Windows)
}

/// The fragments of a query text: its pieces between separators.
pub open spec fn query_fragments(text: Seq<char>) -> Seq<Seq<char>> {
    pieces(text, PathStyle::Windows)
}

/// The query without one trailing separator, if it has one.
pub open spec fn without_trailing_separator(query: Seq<char>) -> Seq<char> {
    if query.len() > 0 && is_query_separator(query.last()) {
        query.drop_last()
    } else {
        query
    }
}

/// What a query is anchored at: a drive, where the style knows drives and
/// the query begins with a drive specifier that a separator or the end
/// follows; the root, where it begins with a separator; else nothing.
pub open spec fn query_anchor(query: Seq<char>, style: PathStyle) -> Anchor {
    if has_drive(query, style) && (query.len() == 2 || is_query_separator(query[2])) {
        Anchor::Drive(query[0])
    } else if query.len() >= 1 && is_query_separator(query[0]) {
        Anchor::Root
    } else {
        Anchor::Relative
    }
}

/// The part of a query that its fragments are cut from: all of it but a
/// drive specifier that anchors it.
pub open spec fn query_body(query: Seq<char>, style: PathStyle) -> Seq<char> {
    if query_anchor(query, style) is Drive {
        query.skip(2)
    } else {
        query
    }
}

/// Whether every fragment is empty.
pub open spec fn all_empty(fragments: Seq<Seq<char>>) -> bool {
    forall|i: int| 0 <= i < fragments.len() ==> (#[trigger] fragments[i]).len() == 0
}

/// The mathematical value of a classified query.
pub enum QueryView {
    Current,
    Parent,
    Previous,
    Home,
    BareAnchor(Anchor),
    Anchored { anchor: Anchor, fragments: Seq<Seq<char>> },
    Relative { fragments: Seq<Seq<char>> },
}

/// What a query asks for.
#[derive(Debug, PartialEq, Eq)]
pub enum Query {
    /// `.`: the current directory.
    Current,
    /// `..`: the parent of the current directory.
    Parent,
    /// `-`: the directory the shell was in before.
    Previous,
    /// `~`: the home directory.
    Home,
    /// An anchor and nothing else: the root, or a drive's root.
    BareAnchor(Anchor),
    /// Fragments to walk from the root or from a drive's root.
    Anchored { anchor: Anchor, fragments: Vec<String> },
    /// Fragments to walk from the current directory.
    Relative { fragments: Vec<String> },
}

impl View for Query {
    type V = QueryView;

    open spec fn view(&self) -> QueryView {
        match self {
            Query::Current => QueryView::Current,
            Query::Parent => QueryView::Parent,
            Query::Previous => QueryView::Previous,
            Query::Home => QueryView::Home,
            Query::BareAnchor(anchor) => QueryView::BareAnchor(*anchor),
            Query::Anchored { anchor, fragments } => QueryView::Anchored {
                anchor: *anchor,
                fragments: texts(fragments@),
            },
            Query::Relative { fragments } => QueryView::Relative { fragments: texts(fragments@) },
        }
    }
}

/// What `query` asks for, in `style`.
///
/// With one trailing separator set aside, `.` and `..` are the current
/// directory and its parent. `-` and `~` are the previous and the home
/// directory. Any other query is cut into fragments; it is anchored where
/// it begins with a separator or a drive specifier, and a bare anchor
/// where nothing but separators follows.
pub open spec fn classified(query: Seq<char>, style: PathStyle) -> QueryView {
    let core = without_trailing_separator(query);
    if core == seq!['.'] {
        QueryView::Current
    } else if core == seq!['.', '.'] {
        QueryView::Parent
    } else if query == seq!['-'] {
        QueryView::Previous
    } else if query == seq!['~'] {
        QueryView::Home
    } else {
        let anchor = query_anchor(query, style);
        let fragments = query_fragments(query_body(query, style));
        if anchor == Anchor::Relative {
            QueryView::Relative { fragments }
        } else if all_empty(fragments) {
            QueryView::BareAnchor(anchor)
        } else {
            QueryView::Anchored { anchor, fragments }
        }
    }
}

/// Whether every one of `fragments` is empty.
fn every_fragment_empty(fragments: &Vec<String>) -> (yes: bool)
    ensures
        yes == all_empty(texts(fragments@)),
{
    let mut i: usize = 0;
    while i < fragments.len()
        invariant
            i <= fragments.len(),
            forall|j: int| 0 <= j < i ==> (#[trigger] texts(fragments@)[j]).len() == 0,
        decreases fragments.len() - i,
    {
        if fragments[i].as_str().unicode_len() > 0 {
            assert(texts(fragments@)[i as int].len() > 0);
            return false;
        }
        i += 1;
    }
    true
}

/// Classifies `query`.
pub fn classify_query(query: &str, style: PathStyle) -> (kind: Query)
    ensures
        kind@ == classified(query@, style),
{
    let chars = chars_of(query);
    let n = chars.len();
    let core_len = if n > 0 && PathStyle::Windows.separates(chars[n - 1]) {
        n - 1
    } else {
        n
    };
    assert(without_trailing_separator(query@) =~= chars@.take(core_len as int));
    if core_len == 1 && chars[0] == '.' {
        assert(chars@.take(1) =~= seq!['.']);
        return Query::Current;
    }
    if core_len == 2 && chars[0] == '.' && chars[1] == '.' {
        assert(chars@.take(2) =~= seq!['.', '.']);
        return Query::Parent;
    }
    if n == 1 && chars[0] == '-' {
        assert(chars@ =~= seq!['-']);
        return Query::Previous;
    }
    if n == 1 && chars[0] == '~' {
        assert(chars@ =~= seq!['~']);
        return Query::Home;
    }
    let drive = style == PathStyle::Windows && n >= 2 && names_drive(chars[0]) && chars[1] == ':'
        && (n == 2 || PathStyle::Windows.separates(chars[2]));
    let anchor = if drive {
        Anchor::Drive(chars[0])
    } else if n >= 1 && PathStyle::Windows.separates(chars[0]) {
        Anchor::Root
    } else {
        Anchor::Relative
    };
    let body = if drive {
        text_of(&chars, 2, n)
    } else {
        text_of(&chars, 0, n)
    };
    assert(body@ =~= query_body(query@, style));
    let fragments = split_text(body.as_str(), PathStyle::Windows);
    match anchor {
        Anchor::Relative => Query::Relative { fragments },
        _ => {
            if every_fragment_empty(&fragments) {
                Query::BareAnchor(anchor)
            } else {
                Query::Anchored { anchor, fragments }
            }
        },
    }
}

} // verus!
