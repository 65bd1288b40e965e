//! The ellipsis: a run of dots as a number of levels to go up.

use vstd::prelude::*;

use crate::path::CandidatePath;
use crate::text::chars_of;

verus! {

/// Whether the fragment holds nothing but dots and spaces.
pub open spec fn only_dots_and_spaces(fragment: Seq<char>) -> bool {
    forall|i: int| 0 <= i < fragment.len() ==> fragment[i] == '.' || fragment[i] == ' '
}

/// The number of dots in the fragment.
pub open spec fn dot_count(fragment: Seq<char>) -> nat {
    fragment.filter(|c: char| c == '.').len()
}

/// Whether the fragment is an ellipsis: two or more dots and, spaces
/// aside, nothing else.
pub open spec fn is_ellipsis(fragment: Seq<char>) -> bool {
    only_dots_and_spaces(fragment) && dot_count(fragment) >= 2
}

/// Whether the fragment has no effect: it is blank, or a single dot.
pub open spec fn is_noop(fragment: Seq<char>) -> bool {
    only_dots_and_spaces(fragment) && dot_count(fragment) <= 1
}

/// The levels that an ellipsis goes up: one fewer than it has dots.
pub open spec fn ellipsis_hops(fragment: Seq<char>) -> nat {
    (dot_count(fragment) - 1) as nat
}

/// What a fragment asks of the segment walker.
#[derive(Debug, Clone, Copy, PartialEq, Eq, Structural)]
pub enum FragmentKind {
    /// Nothing: the fragment is blank or a single dot.
    Skip,
    /// To go up this many levels: the fragment is an ellipsis.
    Ascend(usize),
    /// To search for it.
    Search,
}

/// What the fragment asks of the segment walker.
pub open spec fn fragment_kind(fragment: Seq<char>) -> FragmentKind {
    if is_noop(fragment) {
        FragmentKind::Skip
    } else if is_ellipsis(fragment) {
        FragmentKind::Ascend(ellipsis_hops(fragment) as usize)
    } else {
        FragmentKind::Search
    }
}

/// Tells a blank or single-dot fragment, an ellipsis and a name apart.
pub fn classify_fragment(fragment: &str) -> (kind: FragmentKind)
    ensures
        kind == fragment_kind(fragment@),
        kind matches FragmentKind::Ascend(hops) ==> hops == ellipsis_hops(fragment@),
{
    let chars = chars_of(fragment);
    let ghost is_dot = |c: char| c == '.';
    let mut dots: usize = 0;
    let mut i: usize = 0;
    assert(chars@.take(0).filter(is_dot) =~= Seq::<char>::empty()) by {
        reveal(Seq::filter);
    }
    while i < chars.len()
        invariant
            i <= chars.len(),
            chars@ == fragment@,
            is_dot == |c: char| c == '.',
            dots == chars@.take(i as int).filter(is_dot).len(),
            dots <= i,
            only_dots_and_spaces(chars@.take(i as int)),
        decreases chars.len() - i,
    {
        let c = chars[i];
        proof {
            assert(chars@.take(i + 1) =~= chars@.take(i as int).push(c));
            chars@.take(i as int).lemma_filter_push(c, is_dot);
        }
        if c == '.' {
            dots += 1;
        } else if c != ' ' {
            assert(!only_dots_and_spaces(fragment@));
            return FragmentKind::Search;
        }
        i += 1;
    }
    assert(chars@.take(chars.len() as int) =~= chars@);
    if dots <= 1 {
        FragmentKind::Skip
    } else {
        FragmentKind::Ascend(dots - 1)
    }
}

/// Where an ellipsis leads from `base`: as many levels up as the fragment
/// has dots after its first, and no further than the root of `base`.
/// `None` where the fragment is no ellipsis.
pub fn follow_ellipsis(base: &CandidatePath, fragment: &str) -> (target: Option<CandidatePath>)
    ensures
        is_ellipsis(fragment@) ==> target.is_some() && target.unwrap()@ == base@.ancestor(
            ellipsis_hops(fragment@),
        ),
        !is_ellipsis(fragment@) ==> target.is_none(),
{
    match classify_fragment(fragment) {
        FragmentKind::Ascend(hops) => Some(base.ancestor(hops)),
        _ => None,
    }
}

} // verus!
