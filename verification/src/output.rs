//! What is printed: paths made fit for a shell, and errors in words.

use vstd::prelude::*;

use crate::classify::is_query_separator;
use crate::error::{ErrorView, NcdError};
use crate::path::{
    rendered, strip_extended_prefix, texts, views, without_extended_prefix, CandidatePath,
    PathStyle, PathView,
};
use crate::text::{chars_of, text_of};

verus! {

/// The text before its trailing separators.
pub open spec fn without_trailing_separators(text: Seq<char>) -> Seq<char>
    decreases text.len(),
{
    if text.len() > 0 && is_query_separator(text.last()) {
        without_trailing_separators(text.drop_last())
    } else {
        text
    }
}

/// The text with its trailing separators scrubbed. A text of three
/// characters or fewer is left alone, so that a root such as `C:\` keeps
/// its separator.
pub open spec fn scrubbed(text: Seq<char>) -> Seq<char> {
    if text.len() > 3 {
        without_trailing_separators(text)
    } else {
        text
    }
}

/// How a path is printed in `style`.
pub open spec fn printed(path: PathView, style: PathStyle) -> Seq<char> {
    scrubbed(without_extended_prefix(rendered(path, style)))
}

/// Scrubs the trailing separators of a text longer than three characters.
pub fn scrub_trailing_separators(text: &str) -> (clean: String)
    ensures
        clean@ == scrubbed(text@),
{
    let chars = chars_of(text);
    let mut end: usize = chars.len();
    if end > 3 {
        assert(chars@.take(end as int) =~= text@);
        while end > 0 && PathStyle::Windows.separates(chars[end - 1])
            invariant
                end <= chars.len(),
                chars@ == text@,
                without_trailing_separators(text@) == without_trailing_separators(
                    chars@.take(end as int),
                ),
            decreases end,
        {
            assert(chars@.take(end as int).drop_last() =~= chars@.take(end - 1));
            end -= 1;
        }
    }
    assert(chars@.take(chars.len() as int) =~= chars@);
    assert(chars@.take(end as int) =~= chars@.subrange(0, end as int));
    text_of(&chars, 0, end)
}

/// The text to print for `path`.
pub fn printable(path: &CandidatePath, style: PathStyle) -> (line: String)
    ensures
        line@ == printed(path@, style),
{
    let written = path.to_text(style);
    let stripped = strip_extended_prefix(written.as_str());
    scrub_trailing_separators(stripped.as_str())
}

/// The texts to print for `paths`, one for each, in order.
pub fn output_lines(paths: &Vec<CandidatePath>, style: PathStyle) -> (lines: Vec<String>)
    ensures
        texts(lines@) == views(paths@).map_values(|p: PathView| printed(p, style)),
{
    let mut lines: Vec<String> = Vec::new();
    let mut i: usize = 0;
    while i < paths.len()
        invariant
            i <= paths.len(),
            lines.len() == i,
            forall|j: int| 0 <= j < i ==> (#[trigger] lines@[j])@ == printed(paths@[j]@, style),
        decreases paths.len() - i,
    {
        lines.push(printable(&paths[i], style));
        i += 1;
    }
    assert(texts(lines@) =~= views(paths@).map_values(|p: PathView| printed(p, style)));
    lines
}

/// The lines that name the candidates of an ambiguity, one for each.
pub open spec fn listed(candidates: Seq<PathView>, style: PathStyle) -> Seq<char>
    decreases candidates.len(),
{
    if candidates.len() == 0 {
        Seq::empty()
    } else {
        listed(candidates.drop_last(), style) + "\n  -> "@ + printed(candidates.last(), style)
    }
}

/// The headline of an ambiguity: it names the root at fault where there
/// is one.
pub open spec fn ambiguity_headline(root: Option<PathView>, style: PathStyle) -> Seq<char> {
    match root {
        Some(r) => "Ambiguous match in "@ + printed(r, style) + ":"@,
        None => "Ambiguous match:"@,
    }
}

/// The error in words.
pub open spec fn message_of(error: ErrorView, style: PathStyle) -> Seq<char> {
    match error {
        ErrorView::NoMatch(query) => "Could not resolve \""@ + query + "\""@,
        ErrorView::Ambiguous { root, candidates } => ambiguity_headline(root, style) + listed(
            candidates,
            style,
        ),
        ErrorView::EnvironmentMissing(what) => "The "@ + what + " is not set"@,
        ErrorView::InvalidArgument(what) => "Argument error: "@ + what,
        ErrorView::Unlisted(path) => "No listing for "@ + printed(path, style),
    }
}

impl NcdError {
    /// The error in words, with its paths written in `style`. An
    /// ambiguity names every candidate; a failure to match echoes the
    /// query.
    pub fn message(&self, style: PathStyle) -> (text: String)
        ensures
            text@ == message_of(self@, style),
    {
        match self {
            NcdError::NoMatch(query) => {
                let mut text = "Could not resolve \"".to_owned();
                text.append(query.as_str());
                text.append("\"");
                text
            },
            NcdError::Ambiguous { root, candidates } => {
                let mut text = match root {
                    Some(r) => {
                        let mut head = "Ambiguous match in ".to_owned();
                        head.append(printable(r, style).as_str());
                        head.append(":");
                        head
                    },
                    None => "Ambiguous match:".to_owned(),
                };
                let ghost head = text@;
                let mut i: usize = 0;
                assert(views(candidates@).take(0) =~= Seq::<PathView>::empty());
                assert(text@ =~= head + listed(views(candidates@).take(0), style));
                while i < candidates.len()
                    invariant
                        i <= candidates.len(),
                        text@ == head + listed(views(candidates@).take(i as int), style),
                    decreases candidates.len() - i,
                {
                    proof {
                        let next = views(candidates@).take(i + 1);
                        assert(next.drop_last() =~= views(candidates@).take(i as int));
                        assert(next.last() == candidates@[i as int]@);
                    }
                    text.append("\n  -> ");
                    text.append(printable(&candidates[i], style).as_str());
                    assert(text@ =~= head + listed(views(candidates@).take(i + 1), style));
                    i += 1;
                }
                assert(views(candidates@).take(candidates.len() as int) =~= views(candidates@));
                text
            },
            NcdError::EnvironmentMissing(what) => {
                let mut text = "The ".to_owned();
                text.append(what.as_str());
                text.append(" is not set");
                text
            },
            NcdError::InvalidArgument(what) => {
                let mut text = "Argument error: ".to_owned();
                text.append(what.as_str());
                text
            },
            NcdError::Unlisted(path) => {
                let mut text = "No listing for ".to_owned();
                text.append(printable(path, style).as_str());
                text
            },
        }
    }
}

} // verus!
