//! Laws of the root enumerator.

use vstd::prelude::*;

use crate::config::ConfigView;
use crate::path::PathView;
use crate::roots::{search_roots, without_repeats};

verus! {

/// A scope override has exclusive authority: it is the only root of a
/// search, whatever the current directory and the search path are.
pub proof fn law_scope_override_is_exclusive(
    config: ConfigView,
    scope: PathView,
    cwd: PathView,
    search_path: Seq<PathView>,
)
    requires
        config.scope_override == Some(scope),
    ensures
        search_roots(config, cwd, search_path) == seq![scope],
{
}

/// Without a scope override the current directory is the first root,
/// whether or not the search path names it.
pub proof fn law_current_directory_is_searched_first(
    config: ConfigView,
    cwd: PathView,
    search_path: Seq<PathView>,
)
    requires
        config.scope_override.is_none(),
    ensures
        search_roots(config, cwd, search_path).len() >= 1,
        search_roots(config, cwd, search_path)[0] == cwd,
{
}

/// Leaving out repeats keeps every entry of a search path once: the
/// result holds what the search path holds, and nothing twice.
pub proof fn law_search_path_entries_are_kept_once(entries: Seq<PathView>)
    ensures
        without_repeats(entries).no_duplicates(),
        forall|p: PathView|
            #![trigger without_repeats(entries).contains(p)]
            #![trigger entries.contains(p)]
            without_repeats(entries).contains(p) <==> entries.contains(p),
    decreases entries.len(),
{
    let kept = without_repeats(entries);
    if entries.len() > 0 {
        let before = entries.drop_last();
        let last = entries.last();
        law_search_path_entries_are_kept_once(before);
        let kept_before = without_repeats(before);
        assert forall|p: PathView|
            #![trigger kept.contains(p)]
            #![trigger entries.contains(p)]
            kept.contains(p) <==> entries.contains(p) by {
            if kept.contains(p) {
                let j = choose|j: int| 0 <= j < kept.len() && kept[j] == p;
                if j < kept_before.len() {
                    assert(kept_before[j] == p);
                    assert(kept_before.contains(p));
                    let i = choose|i: int| 0 <= i < before.len() && before[i] == p;
                    assert(entries[i] == p);
                } else {
                    assert(entries[entries.len() - 1] == p);
                }
            }
            if entries.contains(p) {
                let i = choose|i: int| 0 <= i < entries.len() && entries[i] == p;
                if i < before.len() {
                    assert(before[i] == p);
                    assert(before.contains(p));
                    assert(kept_before.contains(p));
                    let j = choose|j: int| 0 <= j < kept_before.len() && kept_before[j] == p;
                    assert(kept[j] == p);
                } else if before.contains(last) {
                    assert(kept_before.contains(p));
                } else {
                    assert(kept[kept.len() - 1] == p);
                }
            }
        }
        assert forall|i: int, j: int| 0 <= i < kept.len() && 0 <= j < kept.len() && i != j implies kept[i]
            != kept[j] by {
            if !before.contains(last) {
                if i == kept.len() - 1 {
                    assert(kept_before[j] == kept[j]);
                    assert(kept_before.contains(kept[j]));
                } else if j == kept.len() - 1 {
                    assert(kept_before[i] == kept[i]);
                    assert(kept_before.contains(kept[i]));
                } else {
                    assert(kept_before[i] == kept[i] && kept_before[j] == kept[j]);
                }
            }
        }
    }
}

} // verus!
