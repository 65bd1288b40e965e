//! The root enumerator: the ordered list of directories that a search walks.

use vstd::prelude::*;

use crate::config::{ConfigView, SearchConfiguration};
use crate::path::{is_among, views, CandidatePath, PathView};

verus! {

/// The entries of a search path with each later repeat of an entry left out.
pub open spec fn without_repeats(entries: Seq<PathView>) -> Seq<PathView>
    decreases entries.len(),
{
    if entries.len() == 0 {
        Seq::empty()
    } else {
        let before = without_repeats(entries.drop_last());
        if entries.drop_last().contains(entries.last()) {
            before
        } else {
            before.push(entries.last())
        }
    }
}

/// The roots of a search. A scope override is the only root where there is
/// one. Otherwise the current directory comes first, whether or not the
/// search path names it too, and the entries of the search path follow in
/// order, each once.
pub open spec fn search_roots(config: ConfigView, cwd: PathView, search_path: Seq<PathView>)
    -> Seq<PathView> {
    match config.scope_override {
        Some(scope) => seq![scope],
        None => seq![cwd] + without_repeats(search_path),
    }
}

/// The directories to search, in order.
pub fn enumerate_roots(
    config: &SearchConfiguration,
    cwd: &CandidatePath,
    search_path: &Vec<CandidatePath>,
) -> (roots: Vec<CandidatePath>)
    ensures
        views(roots@) == search_roots(config@, cwd@, views(search_path@)),
{
    let mut roots: Vec<CandidatePath> = Vec::new();
    match &config.scope_override {
        Some(scope) => {
            roots.push(scope.clone());
            assert(views(roots@) =~= seq![scope@]);
        },
        None => {
            roots.push(cwd.clone());
            assert(views(roots@) =~= seq![cwd@]);
            let mut i: usize = 0;
            while i < search_path.len()
                invariant
                    i <= search_path.len(),
                    views(roots@) == seq![cwd@] + without_repeats(
                        views(search_path@).take(i as int),
                    ),
                decreases search_path.len() - i,
            {
                let ghost seen = views(search_path@).take(i as int);
                let ghost next = views(search_path@).take(i + 1);
                assert(next.drop_last() =~= seen);
                assert(next.last() == search_path@[i as int]@);
                let ghost before = views(roots@);
                if !is_among(&search_path[i], search_path, i) {
                    roots.push(search_path[i].clone());
                    assert(views(roots@) =~= before.push(search_path@[i as int]@));
                    assert(views(roots@) =~= seq![cwd@] + without_repeats(next));
                }
                i += 1;
            }
            assert(views(search_path@).take(search_path.len() as int) =~= views(search_path@));
        },
    }
    roots
}

} // verus!
