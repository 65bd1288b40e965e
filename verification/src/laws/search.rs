//! Laws of the phased search: what it finds, and what it keeps.

use vstd::prelude::*;

use crate::config::{CdMode, ConfigView};
use crate::ellipsis::{is_ellipsis, is_noop};
use crate::error::ErrorView;
use crate::index::{stored_as, ProbeView, RecordView};
use crate::path::PathView;
use crate::pattern::{has_wildcard, MatcherView};
use crate::walker::merged;
use crate::search::{
    direct_child, matcher_for, root_is_target, root_matches, scanned, search, search_from,
};

verus! {

/// Whether the index shows `path` as a directory inside `root` that a
/// contents scan for the fragment of `m` collects.
pub open spec fn is_scanned_child(
    m: MatcherView,
    config: ConfigView,
    root: PathView,
    record: RecordView,
    path: PathView,
) -> bool {
    exists|name: Seq<char>|
        #![trigger root.child(name)]
        record.children.contains(name) && m.accepts_in_scan(config.dir_match, name) && path
            == root.child(name)
}

/// A contents scan collects the accepted children of the root, and
/// nothing else.
pub proof fn law_scan_collects_the_accepted_children(
    m: MatcherView,
    config: ConfigView,
    root: PathView,
    record: RecordView,
    path: PathView,
)
    ensures
        scanned(m, config, root, record.children).contains(path) <==> is_scanned_child(
            m,
            config,
            root,
            record,
            path,
        ),
{
    let accept = |name: Seq<char>| m.accepts_in_scan(config.dir_match, name);
    let place = |name: Seq<char>| root.child(name);
    let kept = record.children.filter(accept);
    let found = scanned(m, config, root, record.children);
    assert(found == kept.map_values(place));
    if found.contains(path) {
        let j = choose|j: int| 0 <= j < found.len() && found[j] == path;
        let name = kept[j];
        record.children.lemma_filter_pred(accept, j);
        assert(kept.contains(name));
        record.children.lemma_filter_contains_rev(accept, name);
        assert(path == root.child(name));
    }
    if is_scanned_child(m, config, root, record, path) {
        let name = choose|name: Seq<char>|
            #![trigger root.child(name)]
            record.children.contains(name) && m.accepts_in_scan(config.dir_match, name) && path
                == root.child(name);
        let i = choose|i: int| 0 <= i < record.children.len() && record.children[i] == name;
        record.children.lemma_filter_contains(accept, i);
        let j = choose|j: int| 0 <= j < kept.len() && kept[j] == name;
        assert(found[j] == path);
    }
}

/// Whether `path` is a match for the fragment of `m` at `root`: a direct
/// child that the index shows, the root itself by its own name, or a child
/// that a contents scan collects.
pub open spec fn is_match_at(
    m: MatcherView,
    config: ConfigView,
    index: Map<PathView, ProbeView>,
    root: PathView,
    path: PathView,
) -> bool {
    &&& index.contains_key(root)
    &&& index[root] matches ProbeView::Directory(record)
    &&& {
        ||| direct_child(m, root, index) == Ok::<Option<PathView>, ErrorView>(Some(path))
        ||| path == root && root.name().is_some() && m.accepts(root.name().unwrap())
        ||| is_scanned_child(m, config, root, record, path)
    }
}

/// Whether `path` is a match at one of `roots`.
pub open spec fn is_match_at_some_root(
    m: MatcherView,
    config: ConfigView,
    index: Map<PathView, ProbeView>,
    roots: Seq<PathView>,
    path: PathView,
) -> bool {
    exists|i: int| #![trigger roots[i]] 0 <= i < roots.len() && is_match_at(m, config, index, roots[i], path)
}

/// What the phases collect at a root are matches at that root.
proof fn lemma_root_matches_are_matches(
    m: MatcherView,
    config: ConfigView,
    index: Map<PathView, ProbeView>,
    position: int,
    scoped: bool,
    root: PathView,
    record: RecordView,
    path: PathView,
)
    requires
        index.contains_key(root),
        index[root] == ProbeView::Directory(record),
        root_matches(m, config, position, scoped, root, record).contains(path),
    ensures
        is_match_at(m, config, index, root, path),
{
    let contents = scanned(m, config, root, record.children);
    let found = root_matches(m, config, position, scoped, root, record);
    let j = choose|j: int| 0 <= j < found.len() && found[j] == path;
    law_scan_collects_the_accepted_children(m, config, root, record, path);
    if path == root && root.name().is_some() && m.accepts(root.name().unwrap()) {
    } else {
        assert(contents.contains(path)) by {
            if m.is_wildcard() && position == 0 {
                assert(contents[j] == path);
            } else {
                let k = j - (found.len() - contents.len());
                assert(contents[k] == path);
            }
        }
    }
}

/// From any root on, a search ends with what it had collected and with
/// matches at the roots, and an ambiguity names matches at its root.
proof fn lemma_search_gives_matches(
    m: MatcherView,
    config: ConfigView,
    scoped: bool,
    roots: Seq<PathView>,
    index: Map<PathView, ProbeView>,
    position: int,
    found: Seq<PathView>,
)
    requires
        0 <= position <= roots.len(),
        forall|k: int|
            0 <= k < found.len() ==> is_match_at_some_root(m, config, index, roots, #[trigger] found[k]),
    ensures
        match search_from(m, config, scoped, roots, index, position, found) {
            Ok(all) => forall|k: int|
                0 <= k < all.len() ==> is_match_at_some_root(m, config, index, roots, #[trigger] all[k]),
            Err(ErrorView::Ambiguous { root, candidates }) => root.is_some() && roots.contains(
                root.unwrap(),
            ) && candidates.len() >= 2 && forall|k: int|
                0 <= k < candidates.len() ==> is_match_at(
                    m,
                    config,
                    index,
                    root.unwrap(),
                    #[trigger] candidates[k],
                ),
            Err(error) => error is Unlisted,
        },
    decreases roots.len() - position,
{
    if position < roots.len() {
        let root = roots[position];
        if index.contains_key(root) {
            match index[root] {
                ProbeView::Absent => {
                    lemma_search_gives_matches(m, config, scoped, roots, index, position + 1, found);
                },
                ProbeView::Directory(record) => {
                    match direct_child(m, root, index) {
                        Err(error) => {},
                        Ok(Some(direct)) => {
                            assert(is_match_at(m, config, index, roots[position], direct));
                        },
                        Ok(None) => {
                            let matches = root_matches(m, config, position, scoped, root, record);
                            assert forall|k: int| 0 <= k < matches.len() implies is_match_at(
                                m,
                                config,
                                index,
                                root,
                                #[trigger] matches[k],
                            ) by {
                                lemma_root_matches_are_matches(
                                    m,
                                    config,
                                    index,
                                    position,
                                    scoped,
                                    root,
                                    record,
                                    matches[k],
                                );
                            }
                            assert forall|k: int| 0 <= k < matches.len() implies is_match_at_some_root(
                                m, config, index, roots, #[trigger] matches[k]) by {
                                assert(is_match_at(m, config, index, roots[position], matches[k]));
                            }
                            if matches.len() == 0 {
                                lemma_search_gives_matches(
                                    m,
                                    config,
                                    scoped,
                                    roots,
                                    index,
                                    position + 1,
                                    found,
                                );
                            } else if config.list {
                                lemma_search_gives_matches(
                                    m,
                                    config,
                                    scoped,
                                    roots,
                                    index,
                                    position + 1,
                                    found + matches,
                                );
                            }
                        },
                    }
                },
            }
        }
    }
}

/// A search never invents a directory. Whatever it finds is a match at
/// one of its roots: a direct child that the index shows, a root that the
/// fragment matches by name, or a listed child that the scan accepts. An
/// ambiguity names two or more matches at one of the roots. The only other
/// failure is a path that the index holds no answer for.
pub proof fn law_search_finds_only_matches(
    m: MatcherView,
    config: ConfigView,
    scoped: bool,
    roots: Seq<PathView>,
    index: Map<PathView, ProbeView>,
)
    ensures
        match search(m, config, scoped, roots, index) {
            Ok(all) => forall|k: int|
                0 <= k < all.len() ==> is_match_at_some_root(m, config, index, roots, #[trigger] all[k]),
            Err(ErrorView::Ambiguous { root, candidates }) => root.is_some() && roots.contains(
                root.unwrap(),
            ) && candidates.len() >= 2 && forall|k: int|
                0 <= k < candidates.len() ==> is_match_at(
                    m,
                    config,
                    index,
                    root.unwrap(),
                    #[trigger] candidates[k],
                ),
            Err(error) => error is Unlisted,
        },
{
    lemma_search_gives_matches(m, config, scoped, roots, index, 0, Seq::empty());
}

/// Whether the root in `position` is passed over by a search: the index
/// shows no directory there, or a directory at which nothing matches.
pub open spec fn is_passed_over(
    m: MatcherView,
    config: ConfigView,
    scoped: bool,
    roots: Seq<PathView>,
    index: Map<PathView, ProbeView>,
    position: int,
) -> bool {
    &&& index.contains_key(roots[position])
    &&& match index[roots[position]] {
        ProbeView::Absent => true,
        ProbeView::Directory(record) => root_matches(
            m,
            config,
            position,
            scoped,
            roots[position],
            record,
        ).len() == 0,
    }
}

/// A wildcard search that passes over its first roots goes on from the
/// root after them with what it had.
pub proof fn lemma_search_passes_over(
    m: MatcherView,
    config: ConfigView,
    scoped: bool,
    roots: Seq<PathView>,
    index: Map<PathView, ProbeView>,
    position: int,
    upto: int,
    found: Seq<PathView>,
)
    requires
        m.is_wildcard(),
        0 <= position <= upto <= roots.len(),
        forall|j: int| position <= j < upto ==> is_passed_over(m, config, scoped, roots, index, j),
    ensures
        search_from(m, config, scoped, roots, index, position, found) == search_from(
            m,
            config,
            scoped,
            roots,
            index,
            upto,
            found,
        ),
    decreases upto - position,
{
    if position < upto {
        assert(is_passed_over(m, config, scoped, roots, index, position));
        lemma_search_passes_over(m, config, scoped, roots, index, position + 1, upto, found);
    }
}

/// In list mode a wildcard search keeps what it has collected: it ends
/// with a list that begins with it, unless a later root is not in the
/// index.
pub proof fn lemma_list_search_keeps_what_it_found(
    m: MatcherView,
    config: ConfigView,
    scoped: bool,
    roots: Seq<PathView>,
    index: Map<PathView, ProbeView>,
    position: int,
    found: Seq<PathView>,
)
    requires
        config.list,
        m.is_wildcard(),
        0 <= position <= roots.len(),
    ensures
        match search_from(m, config, scoped, roots, index, position, found) {
            Ok(all) => found.is_prefix_of(all),
            Err(error) => error is Unlisted,
        },
    decreases roots.len() - position,
{
    if position < roots.len() {
        let root = roots[position];
        if index.contains_key(root) {
            match index[root] {
                ProbeView::Absent => {
                    lemma_list_search_keeps_what_it_found(
                        m,
                        config,
                        scoped,
                        roots,
                        index,
                        position + 1,
                        found,
                    );
                },
                ProbeView::Directory(record) => {
                    let matches = root_matches(m, config, position, scoped, root, record);
                    if matches.len() == 0 {
                        lemma_list_search_keeps_what_it_found(
                            m,
                            config,
                            scoped,
                            roots,
                            index,
                            position + 1,
                            found,
                        );
                    } else {
                        lemma_list_search_keeps_what_it_found(
                            m,
                            config,
                            scoped,
                            roots,
                            index,
                            position + 1,
                            found + matches,
                        );
                        assert(found.is_prefix_of(found + matches));
                    }
                },
            }
        }
    }
}

/// Where a wildcard scan applies at a root, what it collects is among the
/// root's matches: at the first root they begin with it, and at a later
/// root that is no target and is searched in another mode than `Target`
/// they are it.
pub proof fn law_wildcard_scan_is_among_the_matches(
    m: MatcherView,
    config: ConfigView,
    position: int,
    scoped: bool,
    root: PathView,
    record: RecordView,
)
    requires
        m.is_wildcard(),
        position >= 0,
    ensures
        position == 0 ==> scanned(m, config, root, record.children).is_prefix_of(
            root_matches(m, config, position, scoped, root, record),
        ),
        position > 0 && config.mode != CdMode::Target && !root_is_target(
            m,
            config,
            position,
            scoped,
            root,
        ) ==> root_matches(m, config, position, scoped, root, record) == scanned(
            m,
            config,
            root,
            record.children,
        ),
{
    let contents = scanned(m, config, root, record.children);
    let found = root_matches(m, config, position, scoped, root, record);
    if position == 0 {
        assert(contents.is_prefix_of(found));
    } else if config.mode != CdMode::Target && !root_is_target(
        m,
        config,
        position,
        scoped,
        root,
    ) {
        assert(found =~= contents);
    }
}

/// A search below a directory that holds the fragment as a direct child
/// finds that child and nothing else.
pub proof fn lemma_direct_child_ends_the_search(
    fragment: Seq<char>,
    config: ConfigView,
    scoped: bool,
    roots: Seq<PathView>,
    index: Map<PathView, ProbeView>,
)
    requires
        is_plain_name(fragment),
        roots.len() >= 1,
        index.contains_key(roots[0]) && index[roots[0]] is Directory,
        index.contains_key(roots[0].child(fragment)),
        index[roots[0].child(fragment)] is Directory,
        config.exact ==> stored_as(index, roots[0].child(fragment), fragment),
    ensures
        search(matcher_for(fragment, config), config, scoped, roots, index) == Ok::<
            Seq<PathView>,
            ErrorView,
        >(seq![roots[0].child(fragment)]),
{
    lemma_plain_name_is_not_empty(fragment);
}

/// A plain, non-empty fragment is never blank.
proof fn lemma_plain_name_is_not_empty(fragment: Seq<char>)
    requires
        is_plain_name(fragment),
    ensures
        fragment.len() > 0,
{
    if fragment.len() == 0 {
        assert(fragment.filter(|c: char| c == '.') =~= Seq::<char>::empty()) by {
            reveal(Seq::filter);
        }
    }
}

/// Whether a fragment is a plain name: it is searched, and is no wildcard.
pub open spec fn is_plain_name(fragment: Seq<char>) -> bool {
    !is_noop(fragment) && !is_ellipsis(fragment) && !has_wildcard(fragment)
}

/// A search stops for want of an answer only at a path that the index
/// holds no answer for.
pub proof fn lemma_search_stops_only_where_the_index_is_silent(
    m: MatcherView,
    config: ConfigView,
    scoped: bool,
    roots: Seq<PathView>,
    index: Map<PathView, ProbeView>,
    position: int,
    found: Seq<PathView>,
)
    requires
        0 <= position <= roots.len(),
    ensures
        search_from(m, config, scoped, roots, index, position, found) matches Err(
            ErrorView::Unlisted(path),
        ) ==> !index.contains_key(path),
    decreases roots.len() - position,
{
    if position < roots.len() {
        let root = roots[position];
        if index.contains_key(root) {
            match index[root] {
                ProbeView::Absent => {
                    lemma_search_stops_only_where_the_index_is_silent(
                        m,
                        config,
                        scoped,
                        roots,
                        index,
                        position + 1,
                        found,
                    );
                },
                ProbeView::Directory(record) => {
                    match direct_child(m, root, index) {
                        Ok(None) => {
                            let matches = root_matches(m, config, position, scoped, root, record);
                            if matches.len() == 0 {
                                lemma_search_stops_only_where_the_index_is_silent(
                                    m,
                                    config,
                                    scoped,
                                    roots,
                                    index,
                                    position + 1,
                                    found,
                                );
                            } else if config.list {
                                lemma_search_stops_only_where_the_index_is_silent(
                                    m,
                                    config,
                                    scoped,
                                    roots,
                                    index,
                                    position + 1,
                                    found + matches,
                                );
                            }
                        },
                        _ => {},
                    }
                },
            }
        }
    }
}

/// Merging adds what is new and nothing else: the list begins with what
/// was found before, holds exactly what either list holds, and repeats
/// nothing that was not repeated before.
pub proof fn law_merging_adds_what_is_new(found: Seq<PathView>, more: Seq<PathView>)
    ensures
        found.is_prefix_of(merged(found, more)),
        forall|p: PathView|
            #![trigger merged(found, more).contains(p)]
            merged(found, more).contains(p) <==> found.contains(p) || more.contains(p),
        found.no_duplicates() ==> merged(found, more).no_duplicates(),
    decreases more.len(),
{
    let all = merged(found, more);
    if more.len() > 0 {
        let shorter = more.drop_last();
        let last = more.last();
        law_merging_adds_what_is_new(found, shorter);
        let before = merged(found, shorter);
        assert forall|p: PathView| #![trigger all.contains(p)] all.contains(p) <==> found.contains(p)
            || more.contains(p) by {
            if all.contains(p) {
                let j = choose|j: int| 0 <= j < all.len() && all[j] == p;
                if j < before.len() {
                    assert(before[j] == p);
                    assert(before.contains(p));
                    if shorter.contains(p) {
                        let i = choose|i: int| 0 <= i < shorter.len() && shorter[i] == p;
                        assert(more[i] == p);
                    }
                } else {
                    assert(more[more.len() - 1] == p);
                }
            }
            if found.contains(p) {
                assert(before.contains(p));
                let j = choose|j: int| 0 <= j < before.len() && before[j] == p;
                assert(all[j] == p);
            }
            if more.contains(p) {
                let i = choose|i: int| 0 <= i < more.len() && more[i] == p;
                if i < shorter.len() {
                    assert(shorter[i] == p);
                    assert(shorter.contains(p));
                    assert(before.contains(p));
                    let j = choose|j: int| 0 <= j < before.len() && before[j] == p;
                    assert(all[j] == p);
                } else if !before.contains(last) {
                    assert(all[all.len() - 1] == p);
                }
            }
        }
        if found.no_duplicates() && !before.contains(last) {
            assert forall|i: int, j: int| 0 <= i < all.len() && 0 <= j < all.len() && i != j implies all[i]
                != all[j] by {
                if i == all.len() - 1 {
                    assert(before[j] == all[j]);
                    assert(before.contains(all[j]));
                } else if j == all.len() - 1 {
                    assert(before[i] == all[i]);
                    assert(before.contains(all[i]));
                } else {
                    assert(before[i] == all[i] && before[j] == all[j]);
                }
            }
        }
    }
}

} // verus!
