//! Laws of what is printed.

use vstd::prelude::*;

use crate::classify::is_query_separator;
use crate::output::{printed, scrubbed, without_trailing_separators};
use crate::path::{extended_prefix, rendered, without_extended_prefix, PathStyle, PathView};

verus! {

/// A text without its trailing separators ends in none, and is the text
/// itself where that ended in none.
pub proof fn lemma_trailing_separators_are_gone(text: Seq<char>)
    ensures
        without_trailing_separators(text).len() > 0 ==> !is_query_separator(
            without_trailing_separators(text).last(),
        ),
        without_trailing_separators(text).is_prefix_of(text),
        text.len() > 0 && !is_query_separator(text.last()) ==> without_trailing_separators(text)
            == text,
    decreases text.len(),
{
    if text.len() > 0 && is_query_separator(text.last()) {
        lemma_trailing_separators_are_gone(text.drop_last());
    }
}

/// A text that is stripped of its extended-length prefixes begins with
/// none, and is the end of the text it was.
pub proof fn law_no_extended_prefix_is_left(text: Seq<char>)
    ensures
        !extended_prefix().is_prefix_of(without_extended_prefix(text)),
        without_extended_prefix(text).is_suffix_of(text),
    decreases text.len(),
{
    if extended_prefix().is_prefix_of(text) {
        let shorter = text.skip(4);
        law_no_extended_prefix_is_left(shorter);
        let rest = without_extended_prefix(shorter);
        let from = shorter.len() - rest.len();
        assert(rest == shorter.subrange(from, shorter.len() as int));
        assert forall|i: int| 0 <= i < rest.len() implies rest[i] == text[text.len() - rest.len()
            + i] by {
            assert(rest[i] == shorter[from + i]);
        }
        assert(rest =~= text.subrange(text.len() - rest.len(), text.len() as int));
    } else {
        assert(text =~= text.subrange(0, text.len() as int));
    }
}

/// What is printed for a path is scrubbed: when it is longer than three
/// characters it ends in no separator, and scrubbing it again changes
/// nothing.
pub proof fn law_printed_text_is_scrubbed(path: PathView, style: PathStyle)
    ensures
        printed(path, style).len() > 3 ==> !is_query_separator(printed(path, style).last()),
        scrubbed(printed(path, style)) == printed(path, style),
{
    let plain = without_extended_prefix(rendered(path, style));
    lemma_trailing_separators_are_gone(plain);
    let out = printed(path, style);
    if out.len() > 3 {
        lemma_trailing_separators_are_gone(out);
    }
}

} // verus!
