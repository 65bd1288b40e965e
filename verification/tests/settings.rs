use ncd::command_line::{Argument, CommandLine, Step};
use ncd::environment::{pick_home, query_or_home};
use ncd::resolve::{arbitrate, only};
use ncd::roots::enumerate_roots;
use ncd::search::search_across_roots;
use ncd::walker::{ascend_all, merge_into};
use ncd::{
    CandidatePath, CdMode, DirMatch, DirRecord, DirectoryIndex, NcdError, PathStyle, Probe,
    SearchConfiguration,
};

fn posix(text: &str) -> CandidatePath {
    CandidatePath::parse(text, PathStyle::Posix)
}

fn listing(path: &str, children: &[&str]) -> (CandidatePath, Probe) {
    let p = posix(path);
    let record = DirRecord::plain(&p, children.iter().map(|c| c.to_string()).collect());
    (p, Probe::Directory(record))
}

fn index_of(entries: Vec<(CandidatePath, Probe)>) -> DirectoryIndex {
    let mut index = DirectoryIndex::new();
    for (path, probe) in entries {
        index.record(path, probe);
    }
    index
}

#[test]
fn modes_are_named() {
    assert_eq!(CdMode::parse("origin"), Some(CdMode::Origin));
    assert_eq!(CdMode::parse("target"), Some(CdMode::Target));
    assert_eq!(CdMode::parse("hybrid"), Some(CdMode::Hybrid));
    assert_eq!(CdMode::parse("Target"), None);
    assert_eq!(CdMode::parse(""), None);
    assert_eq!(CdMode::from_setting(Some("target")), CdMode::Target);
    assert_eq!(CdMode::from_setting(Some("hybrid")), CdMode::Hybrid);
    assert_eq!(CdMode::from_setting(Some("bogus")), CdMode::Origin);
    assert_eq!(CdMode::from_setting(None), CdMode::Origin);
    assert_eq!(CdMode::from_flag("hybrid"), Ok(CdMode::Hybrid));
    let bad = CdMode::from_flag("sideways").unwrap_err();
    assert_eq!(bad, NcdError::InvalidArgument("Invalid cd mode.".to_string()));
    assert_eq!(bad.message(PathStyle::Posix), "Argument error: Invalid cd mode.");
}

#[test]
fn configurations_are_built_step_by_step() {
    let c = SearchConfiguration::new(CdMode::Hybrid);
    assert_eq!(c.mode, CdMode::Hybrid);
    assert!(!c.exact && !c.list && c.dir_match == DirMatch::AsIs && c.scope_override.is_none());
    let c = c.with_exact(true).with_list(true).with_dir_match(DirMatch::Fuzzy).scoped_to(posix("/r"));
    assert!(c.exact && c.list && c.dir_match == DirMatch::Fuzzy);
    assert_eq!(c.scope_override, Some(posix("/r")));
    let f = SearchConfiguration::from_flags(CdMode::Target, true, false, true);
    assert!(f.mode == CdMode::Target && f.exact && !f.list && f.dir_match == DirMatch::Fuzzy);
    let g = SearchConfiguration::from_flags(CdMode::Origin, false, true, false);
    assert!(g.mode == CdMode::Origin && !g.exact && g.list && g.dir_match == DirMatch::AsIs);
}

#[test]
fn the_environment_picks_home_and_the_default_query() {
    assert_eq!(pick_home(Some(posix("/p")), Some(posix("/h"))), Some(posix("/p")));
    assert_eq!(pick_home(None, Some(posix("/h"))), Some(posix("/h")));
    assert_eq!(pick_home(Some(posix("/p")), None), Some(posix("/p")));
    assert_eq!(pick_home(None, None), None);
    assert_eq!(query_or_home(None), "~");
    assert_eq!(query_or_home(Some("x".to_string())), "x");
    let missing = NcdError::EnvironmentMissing("home directory".to_string());
    assert_eq!(missing.message(PathStyle::Posix), "The home directory is not set");
}

#[test]
fn roots_start_at_the_current_directory_and_repeat_nothing() {
    let config = SearchConfiguration::new(CdMode::Origin);
    let cwd = posix("/work");
    let path = vec![posix("/a"), posix("/b"), posix("/a/"), posix("/work"), posix("/b")];
    assert_eq!(
        enumerate_roots(&config, &cwd, &path),
        vec![posix("/work"), posix("/a"), posix("/b"), posix("/work")]
    );
    assert_eq!(enumerate_roots(&config, &cwd, &vec![]), vec![posix("/work")]);
    let scoped = SearchConfiguration::new(CdMode::Origin).scoped_to(posix("/only"));
    assert_eq!(enumerate_roots(&scoped, &cwd, &path), vec![posix("/only")]);
}

#[test]
fn the_index_answers_with_what_was_recorded_last() {
    let mut index = DirectoryIndex::new();
    let p = posix("/a");
    assert!(!index.knows(&p));
    assert_eq!(index.lookup(&p), None);
    index.record(p.clone(), Probe::Absent);
    assert!(index.knows(&p));
    assert_eq!(index.lookup(&p), Some(&Probe::Absent));
    let (_, shown) = listing("/a", &["x"]);
    index.record(p.clone(), shown);
    assert_eq!(
        index.lookup(&p),
        Some(&Probe::Directory(DirRecord { stored_name: "a".to_string(), children: vec!["x".to_string()] }))
    );
    assert!(!index.knows(&posix("/b")));
    let root = posix("/");
    assert_eq!(DirRecord::plain(&root, vec![]).stored_name, "");
}

#[test]
fn the_phases_run_in_order_at_each_root() {
    let index = index_of(vec![
        listing("/cwd", &["alpha", "beta"]),
        listing("/marks/alpha", &["alpha_inner", "Alpha"]),
        listing("/marks/other", &["alpha", "ALPHA"]),
        (posix("/cwd/Alpha"), Probe::Absent),
        (posix("/marks/alpha/Alpha"), Probe::Directory(DirRecord::plain(&posix("/marks/alpha/Alpha"), vec![]))),
        (posix("/marks/other/Alpha"), Probe::Absent),
        (posix("/gone"), Probe::Absent),
    ]);
    let roots = vec![posix("/cwd"), posix("/gone"), posix("/marks/alpha"), posix("/marks/other")];
    let run = |config: SearchConfiguration| search_across_roots("Alpha", &config, &roots, false, &index);

    // No direct child in the first root; its contents hold one match.
    assert_eq!(run(SearchConfiguration::new(CdMode::Origin)), Ok(vec![posix("/cwd/alpha")]));
    // In list mode the search goes on, and the direct child of a later root
    // takes the place of everything collected.
    assert_eq!(
        run(SearchConfiguration::new(CdMode::Origin).with_list(true)),
        Ok(vec![posix("/marks/alpha/Alpha")])
    );
    // In target mode contents are not scanned, and the first root is no
    // target; the direct child of the third root is found before its name.
    assert_eq!(run(SearchConfiguration::new(CdMode::Target)), Ok(vec![posix("/marks/alpha/Alpha")]));
    // Exact: the first root holds no "Alpha", the third holds it as a child.
    assert_eq!(
        run(SearchConfiguration::new(CdMode::Origin).with_exact(true)),
        Ok(vec![posix("/marks/alpha/Alpha")])
    );
}

#[test]
fn a_target_is_matched_by_its_own_name() {
    let index = index_of(vec![
        listing("/cwd", &[]),
        listing("/marks/alpha", &["alpha"]),
        listing("/marks/other", &["alpha", "ALPHA"]),
        (posix("/cwd/alpha"), Probe::Absent),
        (posix("/marks/alpha/alpha"), Probe::Absent),
        (posix("/marks/other/alpha"), Probe::Absent),
    ]);
    let roots = vec![posix("/cwd"), posix("/marks/alpha"), posix("/marks/other")];
    let run = |config: SearchConfiguration| search_across_roots("alpha", &config, &roots, false, &index);
    assert_eq!(run(SearchConfiguration::new(CdMode::Target)), Ok(vec![posix("/marks/alpha")]));
    assert_eq!(run(SearchConfiguration::new(CdMode::Hybrid)), Ok(vec![posix("/marks/alpha")]));
    assert_eq!(run(SearchConfiguration::new(CdMode::Origin)), Ok(vec![posix("/marks/alpha/alpha")]));
    assert_eq!(
        run(SearchConfiguration::new(CdMode::Hybrid).with_list(true)),
        Ok(vec![posix("/marks/alpha"), posix("/marks/other/alpha"), posix("/marks/other/ALPHA")])
    );
    assert_eq!(
        run(SearchConfiguration::new(CdMode::Origin).with_list(true)),
        Ok(vec![posix("/marks/alpha/alpha"), posix("/marks/other/alpha"), posix("/marks/other/ALPHA")])
    );
    let only_other = vec![posix("/cwd"), posix("/marks/other")];
    assert_eq!(
        search_across_roots("alpha", &SearchConfiguration::new(CdMode::Origin), &only_other, false, &index),
        Err(NcdError::Ambiguous {
            root: Some(posix("/marks/other")),
            candidates: vec![posix("/marks/other/alpha"), posix("/marks/other/ALPHA")],
        })
    );
    // Under a scope override the first root is a target too, and its
    // contents are scanned as well.
    let scoped = vec![posix("/marks/alpha")];
    assert_eq!(
        search_across_roots("alpha", &SearchConfiguration::new(CdMode::Hybrid).with_list(true), &scoped, true, &index),
        Ok(vec![posix("/marks/alpha"), posix("/marks/alpha/alpha")])
    );
    assert_eq!(
        search_across_roots("alpha", &SearchConfiguration::new(CdMode::Hybrid).with_list(true), &scoped, false, &index),
        Ok(vec![posix("/marks/alpha/alpha")])
    );
}

#[test]
fn an_empty_fragment_matches_nothing_as_is() {
    let index = index_of(vec![listing("/cwd", &["a", "b"])]);
    let roots = vec![posix("/cwd")];
    assert_eq!(
        search_across_roots("", &SearchConfiguration::new(CdMode::Origin), &roots, false, &index),
        Ok(vec![])
    );
    assert_eq!(
        search_across_roots("", &SearchConfiguration::new(CdMode::Origin).with_list(true).with_dir_match(DirMatch::Fuzzy), &roots, false, &index),
        Ok(vec![posix("/cwd/a"), posix("/cwd/b")])
    );
}

#[test]
fn the_disk_name_decides_in_exact_mode() {
    // A disk that ignores case shows "docs" when asked for "Docs".
    let mut index = index_of(vec![listing("/cwd", &["docs"])]);
    index.record(
        posix("/cwd/Docs"),
        Probe::Directory(DirRecord { stored_name: "docs".to_string(), children: vec![] }),
    );
    let roots = vec![posix("/cwd")];
    assert_eq!(
        search_across_roots("Docs", &SearchConfiguration::new(CdMode::Origin), &roots, false, &index),
        Ok(vec![posix("/cwd/Docs")])
    );
    assert_eq!(
        search_across_roots("Docs", &SearchConfiguration::new(CdMode::Origin).with_exact(true), &roots, false, &index),
        Ok(vec![])
    );
}

#[test]
fn candidates_rise_and_merge() {
    let cands = vec![posix("/a/b/c"), posix("/x"), posix("y/z")];
    assert_eq!(ascend_all(&cands, 2), vec![posix("/a"), posix("/"), posix(".")]);
    assert_eq!(ascend_all(&cands, 0), cands);
    let mut found = vec![posix("/a"), posix("/b")];
    merge_into(&mut found, vec![posix("/b"), posix("/c"), posix("/c"), posix("/a")]);
    assert_eq!(found, vec![posix("/a"), posix("/b"), posix("/c")]);
    assert_eq!(only(posix("/q")), vec![posix("/q")]);
}

#[test]
fn the_arbiter_never_guesses() {
    let config = SearchConfiguration::new(CdMode::Origin);
    let listing = SearchConfiguration::new(CdMode::Origin).with_list(true);
    let two = || vec![posix("/a"), posix("/b")];
    assert_eq!(arbitrate(Ok(vec![]), "q", &config), Err(NcdError::NoMatch("q".to_string())));
    assert_eq!(arbitrate(Ok(vec![]), "q", &listing), Err(NcdError::NoMatch("q".to_string())));
    assert_eq!(arbitrate(Ok(vec![posix("/a")]), "q", &config), Ok(vec![posix("/a")]));
    assert_eq!(
        arbitrate(Ok(two()), "q", &config),
        Err(NcdError::Ambiguous { root: None, candidates: two() })
    );
    assert_eq!(arbitrate(Ok(two()), "q", &listing), Ok(two()));
    assert_eq!(
        arbitrate(Err(NcdError::Unlisted(posix("/z"))), "q", &config),
        Err(NcdError::Unlisted(posix("/z")))
    );
}

#[test]
fn arguments_are_taken_one_at_a_time() {
    let mut line = CommandLine::new(Some("hybrid"));
    assert_eq!(line.mode, CdMode::Hybrid);
    assert!(line.query.is_none() && !line.quiet && !line.exact && !line.list && !line.fuzzy);
    assert_eq!(line.accept(Argument::Short('l')), Ok(Step::Continue));
    assert!(line.list);
    assert_eq!(line.accept(Argument::Long("quiet".to_string())), Ok(Step::Continue));
    assert!(line.quiet);
    assert_eq!(line.accept(Argument::Short('e')), Ok(Step::Continue));
    assert_eq!(line.accept(Argument::Long("fuzzy".to_string())), Ok(Step::Continue));
    assert!(line.exact && line.fuzzy);
    assert_eq!(line.accept(Argument::Value("first".to_string())), Ok(Step::Continue));
    assert_eq!(line.accept(Argument::Value("proj*".to_string())), Ok(Step::Continue));
    assert_eq!(line.query, Some("proj*".to_string()));
    assert_eq!(line.accept(Argument::Long("cd".to_string())), Ok(Step::ReadMode));
    assert_eq!(line.accept_mode("target"), Ok(()));
    assert_eq!(line.mode, CdMode::Target);
    assert_eq!(
        line.accept_mode("sideways"),
        Err(NcdError::InvalidArgument("Invalid cd mode.".to_string()))
    );
    assert_eq!(line.mode, CdMode::Target);
    assert_eq!(line.accept(Argument::Short('h')), Ok(Step::ShowHelp));
    assert_eq!(line.accept(Argument::Long("help".to_string())), Ok(Step::ShowHelp));
    assert_eq!(
        line.accept(Argument::Short('x')),
        Err(NcdError::InvalidArgument("Unexpected argument".to_string()))
    );
    assert_eq!(
        line.accept(Argument::Long("List".to_string())),
        Err(NcdError::InvalidArgument("Unexpected argument".to_string()))
    );
    let config = line.configuration();
    assert!(config.mode == CdMode::Target && config.exact && config.list);
    assert!(config.dir_match == DirMatch::Fuzzy && config.scope_override.is_none());
    let plain = CommandLine::new(None);
    assert_eq!(plain.mode, CdMode::Origin);
    assert_eq!(plain.configuration().dir_match, DirMatch::AsIs);
}
