//! Laws of paths: going up, and the text form.

use vstd::prelude::*;

use crate::ellipsis::{dot_count, ellipsis_hops, is_ellipsis};
use crate::path::{
    components_of, extended_prefix, has_drive, is_component, is_drive_letter, is_separator, joined,
    lemma_pieces_nonempty, native_text, parsed, pieces, rendered, separator, Anchor, PathStyle,
    PathView,
};

verus! {

/// The path reached from `path` by taking the parent `times` times.
pub open spec fn nth_parent(path: PathView, times: nat) -> PathView
    decreases times,
{
    if times == 0 {
        path
    } else {
        nth_parent(path, (times - 1) as nat).parent()
    }
}

/// Going up `hops` levels at once is taking the parent `hops` times.
pub proof fn lemma_ancestor_is_repeated_parent(path: PathView, hops: nat)
    ensures
        path.ancestor(hops) == nth_parent(path, hops),
    decreases hops,
{
    if hops == 0 {
        assert(path.ancestor(0).components =~= path.components);
    } else {
        lemma_ancestor_is_repeated_parent(path, (hops - 1) as nat);
        let before = path.ancestor((hops - 1) as nat);
        assert(before.parent().components =~= path.ancestor(hops).components);
    }
}

/// Components that are all names are written as a text that is not empty.
pub proof fn lemma_joined_nonempty(components: Seq<Seq<char>>, sep: char)
    requires
        components.len() > 0,
        forall|i: int| 0 <= i < components.len() ==> is_component(#[trigger] components[i]),
    ensures
        joined(components, sep).len() > 0,
    decreases components.len(),
{
    if components.len() == 1 {
        assert(is_component(components[0]));
    }
}

/// A well-formed path is never written as the empty text.
pub proof fn law_text_is_never_empty(path: PathView, style: PathStyle)
    requires
        path.well_formed(),
    ensures
        rendered(path, style).len() > 0,
{
    if path.components.len() > 0 {
        lemma_joined_nonempty(path.components, separator(style));
    }
}

/// An ellipsis of N dots, applied to a base path, leads exactly N-1 levels
/// up where the base is at least that deep: it is the parent taken N-1
/// times, and keeps the first D-(N-1) of the base's D components. Where
/// the base is shallower, it leads to the root of the base. Either way the
/// result has the anchor of the base, is well-formed where the base is,
/// and is never written as the empty text.
pub proof fn law_ellipsis_goes_up_and_stops_at_the_root(
    base: PathView,
    fragment: Seq<char>,
    style: PathStyle,
)
    requires
        is_ellipsis(fragment),
        base.well_formed(),
    ensures
        ellipsis_hops(fragment) == dot_count(fragment) - 1,
        ellipsis_hops(fragment) >= 1,
        base.ancestor(ellipsis_hops(fragment)) == nth_parent(base, ellipsis_hops(fragment)),
        base.ancestor(ellipsis_hops(fragment)).anchor == base.anchor,
        base.depth() >= ellipsis_hops(fragment) ==> base.ancestor(
            ellipsis_hops(fragment),
        ).components == base.components.take(base.depth() - ellipsis_hops(fragment)),
        base.depth() < ellipsis_hops(fragment) ==> base.ancestor(ellipsis_hops(fragment))
            == base.root(),
        base.ancestor(ellipsis_hops(fragment)).well_formed(),
        rendered(base.ancestor(ellipsis_hops(fragment)), style).len() > 0,
{
    let hops = ellipsis_hops(fragment);
    let target = base.ancestor(hops);
    lemma_ancestor_is_repeated_parent(base, hops);
    if base.depth() == hops {
        assert(base.components.take(0) =~= Seq::<Seq<char>>::empty());
    }
    assert forall|i: int| 0 <= i < target.components.len() implies is_component(
        #[trigger] target.components[i],
    ) by {
        assert(target.components[i] == base.components[i]);
    }
    law_text_is_never_empty(target, style);
}

/// Whether `name` can be written as one component in `style`: it is not
/// empty, is not a single dot, and holds no separator.
pub open spec fn is_name_in(name: Seq<char>, style: PathStyle) -> bool {
    is_component(name) && forall|i: int| 0 <= i < name.len() ==> !is_separator(name[i], style)
}

/// Whether `path` can be written in `style` so that it reads back: its
/// components are names, a drive is named by a letter and only in Windows
/// style, and a relative path does not begin with what reads as a drive.
pub open spec fn is_writable_in(path: PathView, style: PathStyle) -> bool {
    &&& forall|i: int|
        0 <= i < path.components.len() ==> is_name_in(#[trigger] path.components[i], style)
    &&& path.anchor matches Anchor::Drive(letter) ==> style == PathStyle::Windows
        && is_drive_letter(letter)
    &&& path.anchor == Anchor::Relative && path.components.len() > 0 ==> !has_drive(
        path.components[0],
        style,
    )
}

/// A text without separators is one piece.
proof fn lemma_name_is_one_piece(name: Seq<char>, style: PathStyle)
    requires
        forall|i: int| 0 <= i < name.len() ==> !is_separator(name[i], style),
    ensures
        pieces(name, style) == seq![name],
    decreases name.len(),
{
    if name.len() == 0 {
        assert(name =~= Seq::<char>::empty());
        assert(pieces(name, style) =~= seq![name]);
    } else {
        let shorter = name.drop_last();
        assert forall|i: int| 0 <= i < shorter.len() implies !is_separator(shorter[i], style) by {
            assert(shorter[i] == name[i]);
        }
        lemma_name_is_one_piece(shorter, style);
        assert(!is_separator(name[name.len() - 1], style));
        assert(shorter.push(name.last()) =~= name);
        assert(seq![shorter].update(0, name) =~= seq![name]);
        assert(pieces(name, style) =~= seq![name]);
    }
}

/// The pieces of two texts with a separator between them are the pieces
/// of the first and then those of the second.
proof fn lemma_pieces_of_separated(a: Seq<char>, sep: char, b: Seq<char>, style: PathStyle)
    requires
        is_separator(sep, style),
    ensures
        pieces(a + seq![sep] + b, style) == pieces(a, style) + pieces(b, style),
    decreases b.len(),
{
    let whole = a + seq![sep] + b;
    lemma_pieces_nonempty(a, style);
    if b.len() == 0 {
        assert(whole.drop_last() =~= a);
        assert(pieces(whole, style) =~= pieces(a, style) + pieces(b, style));
    } else {
        let shorter = b.drop_last();
        lemma_pieces_of_separated(a, sep, shorter, style);
        lemma_pieces_nonempty(shorter, style);
        assert(whole.drop_last() =~= a + seq![sep] + shorter);
        assert(whole.last() == b.last());
        assert(pieces(whole, style) =~= pieces(a, style) + pieces(b, style));
    }
}

/// Names that are written with separators between them are the pieces of
/// what is written.
proof fn lemma_pieces_of_joined(names: Seq<Seq<char>>, style: PathStyle)
    requires
        names.len() >= 1,
        forall|i: int| 0 <= i < names.len() ==> is_name_in(#[trigger] names[i], style),
    ensures
        pieces(joined(names, separator(style)), style) == names,
    decreases names.len(),
{
    let sep = separator(style);
    assert(is_name_in(names.last(), style));
    lemma_name_is_one_piece(names.last(), style);
    if names.len() == 1 {
        assert(seq![names[0]] =~= names);
    } else {
        let before = names.drop_last();
        assert forall|i: int| 0 <= i < before.len() implies is_name_in(#[trigger] before[i], style) by {
            assert(before[i] == names[i]);
        }
        lemma_pieces_of_joined(before, style);
        lemma_pieces_of_separated(joined(before, sep), sep, names.last(), style);
        assert(before + seq![names.last()] =~= names);
    }
}

/// Names are all kept as components.
proof fn lemma_names_are_components(names: Seq<Seq<char>>, style: PathStyle)
    requires
        forall|i: int| 0 <= i < names.len() ==> is_name_in(#[trigger] names[i], style),
    ensures
        names.filter(|piece: Seq<char>| is_component(piece)) == names,
    decreases names.len(),
{
    reveal(Seq::filter);
    if names.len() > 0 {
        let before = names.drop_last();
        assert forall|i: int| 0 <= i < before.len() implies is_name_in(#[trigger] before[i], style) by {
            assert(before[i] == names[i]);
        }
        lemma_names_are_components(before, style);
        assert(is_name_in(names.last(), style));
        assert(before.push(names.last()) =~= names);
    }
}

/// What follows a root's separator reads back as the components.
proof fn lemma_components_below_a_root(names: Seq<Seq<char>>, style: PathStyle)
    requires
        forall|i: int| 0 <= i < names.len() ==> is_name_in(#[trigger] names[i], style),
    ensures
        components_of(seq![separator(style)] + joined(names, separator(style)), style) == names,
{
    let sep = separator(style);
    let keep = |piece: Seq<char>| is_component(piece);
    let text = seq![sep] + joined(names, sep);
    let nothing = Seq::<char>::empty();
    assert(text =~= nothing + seq![sep] + joined(names, sep));
    lemma_pieces_of_separated(nothing, sep, joined(names, sep), style);
    assert(pieces(nothing, style) =~= seq![nothing]);
    lemma_names_are_components(names, style);
    if names.len() == 0 {
        assert(pieces(text, style) =~= seq![nothing, nothing]);
        assert(seq![nothing, nothing].drop_last() =~= seq![nothing]);
        assert(seq![nothing].drop_last() =~= Seq::<Seq<char>>::empty());
        assert(seq![nothing, nothing].filter(keep) =~= Seq::<Seq<char>>::empty()) by {
            reveal_with_fuel(Seq::filter, 3);
        }
        assert(names =~= Seq::<Seq<char>>::empty());
    } else {
        lemma_pieces_of_joined(names, style);
        assert(pieces(text, style) =~= seq![nothing] + names);
        Seq::filter_distributes_over_add(seq![nothing], names, keep);
        assert(seq![nothing].drop_last() =~= Seq::<Seq<char>>::empty());
        assert(seq![nothing].filter(keep) =~= Seq::<Seq<char>>::empty()) by {
            reveal_with_fuel(Seq::filter, 2);
        }
        assert(Seq::<Seq<char>>::empty() + names =~= names);
    }
}

/// What is written for a list of names begins with the first name.
proof fn lemma_joined_starts_with_first_name(names: Seq<Seq<char>>, sep: char)
    requires
        names.len() > 0,
    ensures
        names[0].is_prefix_of(joined(names, sep)),
        names.len() > 1 ==> joined(names, sep).len() > names[0].len() && joined(
            names,
            sep,
        )[names[0].len() as int] == sep,
    decreases names.len(),
{
    if names.len() > 1 {
        lemma_joined_starts_with_first_name(names.drop_last(), sep);
    }
}

/// A path that can be written in a style reads back from its text as the
/// path it was.
pub proof fn law_written_path_reads_back(path: PathView, style: PathStyle)
    requires
        is_writable_in(path, style),
    ensures
        parsed(rendered(path, style), style) == path,
{
    let sep = separator(style);
    let names = path.components;
    let text = rendered(path, style);
    let keep = |piece: Seq<char>| is_component(piece);
    if names.len() > 0 {
        assert(is_name_in(names[0], style));
        lemma_joined_nonempty(names, sep);
        lemma_joined_starts_with_first_name(names, sep);
    }
    assert(native_text(text, style) == text) by {
        if style == PathStyle::Windows && extended_prefix().is_prefix_of(text) {
            assert(text.subrange(0, 4) == extended_prefix());
            assert(text[0] == extended_prefix()[0]);
            assert(text[1] == extended_prefix()[1]);
            if names.len() > 0 {
                assert(!is_separator(names[0][0], style));
                assert(joined(names, sep)[0] == names[0][0]);
            }
            match path.anchor {
                Anchor::Relative => {
                    assert(text[0] != '\\');
                },
                Anchor::Root => {
                    assert(text =~= seq![sep] + joined(names, sep));
                    assert(names.len() > 0);
                    assert(text[1] == joined(names, sep)[0]);
                },
                Anchor::Drive(letter) => {
                    assert(text[0] == letter);
                },
            }
        }
    }
    match path.anchor {
        Anchor::Relative => {
            if names.len() == 0 {
                lemma_name_is_one_piece(seq!['.'], style);
                assert(seq![seq!['.']].drop_last() =~= Seq::<Seq<char>>::empty());
                assert(seq![seq!['.']].filter(keep) =~= Seq::<Seq<char>>::empty()) by {
                    reveal_with_fuel(Seq::filter, 2);
                }
                assert(parsed(text, style).components =~= names);
            } else {
                assert(text =~= joined(names, sep));
                assert(has_drive(text, style) ==> has_drive(names[0], style)) by {
                    if has_drive(text, style) {
                        assert(text[0] == names[0][0]);
                        if names[0].len() >= 2 {
                            assert(text[1] == names[0][1]);
                        }
                    }
                }
                assert(!is_separator(text[0], style)) by {
                    assert(text[0] == names[0][0]);
                }
                lemma_pieces_of_joined(names, style);
                lemma_names_are_components(names, style);
            }
        },
        Anchor::Root => {
            assert(text =~= seq![sep] + joined(names, sep));
            lemma_components_below_a_root(names, style);
        },
        Anchor::Drive(letter) => {
            assert(text =~= seq![letter, ':', sep] + joined(names, sep));
            assert(has_drive(text, style));
            assert(text.skip(2) =~= seq![sep] + joined(names, sep));
            lemma_components_below_a_root(names, style);
        },
    }
}

/// The pieces of a text hold no separator, and there is one more of them
/// than the text has separators.
pub proof fn law_pieces_lie_between_separators(text: Seq<char>, style: PathStyle)
    ensures
        forall|i: int, j: int|
            0 <= i < pieces(text, style).len() && 0 <= j < pieces(text, style)[i].len()
                ==> !is_separator(#[trigger] pieces(text, style)[i][j], style),
        pieces(text, style).len() == 1 + text.filter(|c: char| is_separator(c, style)).len(),
    decreases text.len(),
{
    let marks = |c: char| is_separator(c, style);
    reveal(Seq::filter);
    if text.len() > 0 {
        let shorter = text.drop_last();
        law_pieces_lie_between_separators(shorter, style);
        lemma_pieces_nonempty(shorter, style);
        let before = pieces(shorter, style);
        let now = pieces(text, style);
        assert forall|i: int, j: int| 0 <= i < now.len() && 0 <= j < now[i].len() implies !is_separator(
            #[trigger] now[i][j],
            style,
        ) by {
            if i < before.len() - 1 {
                assert(now[i][j] == before[i][j]);
            } else if !is_separator(text.last(), style) {
                if j < before.last().len() {
                    assert(now[i][j] == before[i][j]);
                }
            } else if i == before.len() - 1 {
                assert(now[i][j] == before[i][j]);
            }
        }
    }
}

} // verus!
