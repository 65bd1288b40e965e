//! Laws of the pattern engine: escaped dots and the case rule.

use vstd::prelude::*;

use crate::config::DirMatch;
use crate::index::{stored_as, ProbeView};
use crate::path::PathView;
use crate::pattern::{anchored_pattern, char_pattern, has_wildcard, pattern_body, MatcherView};
use crate::search::direct_child;
use crate::text::lowercase_of;

verus! {

/// The pattern of a fragment is the patterns of its parts, one after the
/// other.
pub proof fn lemma_pattern_is_written_char_by_char(a: Seq<char>, b: Seq<char>)
    ensures
        pattern_body(a + b) == pattern_body(a) + pattern_body(b),
    decreases b.len(),
{
    if b.len() == 0 {
        assert(a + b =~= a);
        assert(pattern_body(a) + pattern_body(b) =~= pattern_body(a));
    } else {
        assert((a + b).drop_last() =~= a + b.drop_last());
        lemma_pattern_is_written_char_by_char(a, b.drop_last());
        assert(pattern_body(a + b) =~= pattern_body(a) + pattern_body(b));
    }
}

/// A literal dot of a fragment stands in the pattern as an escaped dot, at
/// its place between the patterns of what precedes and what follows
/// it: the pattern never lets the dot stand for another character.
pub proof fn law_literal_dot_is_escaped(before: Seq<char>, after: Seq<char>)
    ensures
        anchored_pattern(before + seq!['.'] + after) == seq!['^'] + pattern_body(before) + seq![
            '\\',
            '.',
        ] + pattern_body(after) + seq!['$'],
{
    lemma_pattern_is_written_char_by_char(before + seq!['.'], after);
    lemma_pattern_is_written_char_by_char(before, seq!['.']);
    assert(seq!['.'].drop_last() =~= Seq::<char>::empty());
    assert(pattern_body(Seq::<char>::empty()) =~= Seq::<char>::empty());
    assert(pattern_body(seq!['.']) =~= seq!['\\', '.']);
}

/// Without `exact`, casing does not count: two spellings of a plain
/// fragment that lowercase to the same text accept the same names, two
/// spellings of a name are accepted alike, and a fragment accepts the name
/// that it is another spelling of.
pub proof fn law_case_is_ignored_unless_exact(
    fragment: Seq<char>,
    respelled: Seq<char>,
    name: Seq<char>,
    renamed: Seq<char>,
    kind: DirMatch,
)
    requires
        !has_wildcard(fragment),
        !has_wildcard(respelled),
        lowercase_of(fragment) == lowercase_of(respelled),
        lowercase_of(name) == lowercase_of(renamed),
    ensures
        (MatcherView { fragment, exact: false }).accepts(name) == (MatcherView {
            fragment: respelled,
            exact: false,
        }).accepts(renamed),
        (MatcherView { fragment, exact: false }).accepts_in_scan(kind, name) == (MatcherView {
            fragment: respelled,
            exact: false,
        }).accepts_in_scan(kind, renamed),
        (MatcherView { fragment, exact: false }).accepts(respelled),
{
}

/// With `exact`, a plain fragment accepts a name only in the fragment's
/// own spelling, in a match as in a scan of either kind, and a direct
/// child is found only where the disk stores it under that spelling.
pub proof fn law_exact_accepts_only_the_stored_casing(
    fragment: Seq<char>,
    name: Seq<char>,
    kind: DirMatch,
    root: PathView,
    index: Map<PathView, ProbeView>,
)
    requires
        !has_wildcard(fragment),
    ensures
        (MatcherView { fragment, exact: true }).accepts(name) <==> name == fragment,
        (MatcherView { fragment, exact: true }).accepts_in_scan(kind, name) <==> name == fragment,
        direct_child(MatcherView { fragment, exact: true }, root, index) matches Ok(Some(found))
            ==> found == root.child(fragment) && stored_as(index, found, fragment),
{
}

/// The text with every `from` replaced by `to`.
pub open spec fn replaced(text: Seq<char>, from: char, to: Seq<char>) -> Seq<char>
    decreases text.len(),
{
    if text.len() == 0 {
        Seq::empty()
    } else {
        replaced(text.drop_last(), from, to) + (if text.last() == from {
            to
        } else {
            seq![text.last()]
        })
    }
}

/// Replacing in two texts, one after the other, is replacing in both.
proof fn lemma_replacing_is_done_part_by_part(a: Seq<char>, b: Seq<char>, from: char, to: Seq<char>)
    ensures
        replaced(a + b, from, to) == replaced(a, from, to) + replaced(b, from, to),
    decreases b.len(),
{
    if b.len() == 0 {
        assert(a + b =~= a);
        assert(replaced(a, from, to) + replaced(b, from, to) =~= replaced(a, from, to));
    } else {
        assert((a + b).drop_last() =~= a + b.drop_last());
        lemma_replacing_is_done_part_by_part(a, b.drop_last(), from, to);
        assert(replaced(a + b, from, to) =~= replaced(a, from, to) + replaced(b, from, to));
    }
}

/// Replacing in one character that is not `from` leaves it.
proof fn lemma_replacing_spares_other_characters(c: char, from: char, to: Seq<char>)
    requires
        c != from,
    ensures
        replaced(seq![c], from, to) == seq![c],
{
    assert(seq![c].drop_last() =~= Seq::<char>::empty());
    assert(replaced(Seq::<char>::empty(), from, to) =~= Seq::<char>::empty());
    assert(replaced(seq![c], from, to) =~= seq![c]);
}

/// The three replacements, in order, of the dots, the `?` and the `*`.
pub open spec fn replaced_in_order(text: Seq<char>) -> Seq<char> {
    replaced(replaced(replaced(text, '.', seq!['\\', '.']), '?', seq!['.']), '*', seq!['.', '*'])
}

/// The three replacements of one character give what it becomes in the
/// pattern.
proof fn lemma_one_character_in_order(c: char)
    ensures
        replaced_in_order(seq![c]) == char_pattern(c),
{
    let nothing = Seq::<char>::empty();
    assert(seq![c].drop_last() =~= nothing);
    assert(replaced(nothing, '.', seq!['\\', '.']) =~= nothing);
    if c == '.' {
        let escaped = seq!['\\', '.'];
        assert(replaced(seq![c], '.', escaped) =~= escaped);
        assert(escaped =~= seq!['\\'] + seq!['.']);
        lemma_replacing_is_done_part_by_part(seq!['\\'], seq!['.'], '?', seq!['.']);
        lemma_replacing_spares_other_characters('\\', '?', seq!['.']);
        lemma_replacing_spares_other_characters('.', '?', seq!['.']);
        lemma_replacing_is_done_part_by_part(seq!['\\'], seq!['.'], '*', seq!['.', '*']);
        lemma_replacing_spares_other_characters('\\', '*', seq!['.', '*']);
        lemma_replacing_spares_other_characters('.', '*', seq!['.', '*']);
    } else if c == '?' {
        lemma_replacing_spares_other_characters(c, '.', seq!['\\', '.']);
        assert(replaced(nothing, '?', seq!['.']) =~= nothing);
        assert(replaced(seq![c], '?', seq!['.']) =~= seq!['.']);
        lemma_replacing_spares_other_characters('.', '*', seq!['.', '*']);
    } else if c == '*' {
        lemma_replacing_spares_other_characters(c, '.', seq!['\\', '.']);
        lemma_replacing_spares_other_characters(c, '?', seq!['.']);
        assert(replaced(nothing, '*', seq!['.', '*']) =~= nothing);
        assert(replaced(seq![c], '*', seq!['.', '*']) =~= seq!['.', '*']);
    } else {
        lemma_replacing_spares_other_characters(c, '.', seq!['\\', '.']);
        lemma_replacing_spares_other_characters(c, '?', seq!['.']);
        lemma_replacing_spares_other_characters(c, '*', seq!['.', '*']);
    }
}

/// The pattern of a fragment is what three replacements give when they
/// are made in this order: every dot by an escaped dot first, then every
/// `?` by a dot, then every `*` by a dot and a star.
pub proof fn law_pattern_is_three_replacements_in_order(fragment: Seq<char>)
    ensures
        pattern_body(fragment) == replaced_in_order(fragment),
        anchored_pattern(fragment) == seq!['^'] + replaced_in_order(fragment) + seq!['$'],
    decreases fragment.len(),
{
    if fragment.len() == 0 {
        assert(replaced(fragment, '.', seq!['\\', '.']) =~= Seq::<char>::empty());
        assert(replaced(Seq::<char>::empty(), '?', seq!['.']) =~= Seq::<char>::empty());
        assert(replaced(Seq::<char>::empty(), '*', seq!['.', '*']) =~= Seq::<char>::empty());
    } else {
        let shorter = fragment.drop_last();
        let c = fragment.last();
        law_pattern_is_three_replacements_in_order(shorter);
        lemma_one_character_in_order(c);
        assert(fragment =~= shorter + seq![c]);
        let first = |t: Seq<char>| replaced(t, '.', seq!['\\', '.']);
        let second = |t: Seq<char>| replaced(t, '?', seq!['.']);
        lemma_replacing_is_done_part_by_part(shorter, seq![c], '.', seq!['\\', '.']);
        lemma_replacing_is_done_part_by_part(first(shorter), first(seq![c]), '?', seq!['.']);
        lemma_replacing_is_done_part_by_part(
            second(first(shorter)),
            second(first(seq![c])),
            '*',
            seq!['.', '*'],
        );
    }
}

} // verus!
