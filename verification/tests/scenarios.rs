use ncd::output::output_lines;
use ncd::{
    evaluate_jump, CandidatePath, CdMode, DirRecord, DirectoryIndex, Environment, NcdError,
    PathStyle, Probe, SearchConfiguration,
};

/// A disk that holds these directories and nothing else.
struct Disk {
    style: PathStyle,
    dirs: Vec<&'static str>,
}

impl Disk {
    fn probe(&self, path: &CandidatePath) -> Probe {
        let text = path.to_text(self.style);
        if !self.dirs.iter().any(|d| *d == text) {
            return Probe::Absent;
        }
        let mut children = Vec::new();
        for d in &self.dirs {
            let p = CandidatePath::parse(d, self.style);
            if p.depth() > 0 && p.parent() == *path {
                children.push(p.components[p.components.len() - 1].clone());
            }
        }
        Probe::Directory(DirRecord::plain(path, children))
    }
}

fn env_at(style: PathStyle, cwd: &str, search_path: &[&str]) -> Environment {
    Environment {
        style,
        cwd: CandidatePath::parse(cwd, style),
        search_path: search_path.iter().map(|p| CandidatePath::parse(p, style)).collect(),
        home: None,
        previous: None,
    }
}

/// Resolves as a caller with a disk does: every path that the index lacks
/// is probed and recorded, and the query is resolved again.
fn resolve(
    query: &str,
    config: &SearchConfiguration,
    env: &Environment,
    disk: &Disk,
) -> Result<Vec<String>, NcdError> {
    let mut index = DirectoryIndex::new();
    loop {
        match evaluate_jump(query, config, env, &index) {
            Err(NcdError::Unlisted(path)) => {
                assert!(!index.knows(&path));
                let probe = disk.probe(&path);
                index.record(path, probe);
            }
            Ok(paths) => return Ok(output_lines(&paths, env.style)),
            Err(other) => return Err(other),
        }
    }
}

fn tree() -> Disk {
    Disk {
        style: PathStyle::Posix,
        dirs: vec![
            "/",
            "/root",
            "/root/Projects",
            "/root/Projects/ncd",
            "/root/Projects/ncd/src",
            "/root/Users",
            "/root/Users/Guest",
            "/root/Users/Guest/Desktop",
        ],
    }
}

#[test]
fn three_dots_go_up_two_levels() {
    let env = env_at(PathStyle::Posix, "/root/Projects/ncd", &[]);
    let config = SearchConfiguration::new(CdMode::Origin);
    let found = resolve("...", &config, &env, &tree()).unwrap();
    assert_eq!(found, vec!["/root".to_string()]);
}

#[test]
fn dots_from_a_project_count_levels_up() {
    let disk = Disk { style: PathStyle::Posix, dirs: vec!["root/Projects/ncd"] };
    let env = env_at(PathStyle::Posix, "root/Projects/ncd", &[]);
    let config = SearchConfiguration::new(CdMode::Origin);
    // Two dots are one level up, three dots are two.
    assert_eq!(resolve("..", &config, &env, &disk).unwrap(), vec!["root/Projects".to_string()]);
    assert_eq!(resolve("...", &config, &env, &disk).unwrap(), vec!["root".to_string()]);
    assert_eq!(resolve("....", &config, &env, &disk).unwrap(), vec![".".to_string()]);
    assert_eq!(resolve(".......", &config, &env, &disk).unwrap(), vec![".".to_string()]);
}

#[test]
fn wildcard_head_then_literal_tail_scoped_hybrid() {
    let env = env_at(PathStyle::Posix, "/elsewhere", &[]);
    let config = SearchConfiguration::new(CdMode::Hybrid)
        .scoped_to(CandidatePath::parse("/root", PathStyle::Posix));
    let found = resolve("Proj*/ncd/src", &config, &env, &tree()).unwrap();
    assert_eq!(found, vec!["/root/Projects/ncd/src".to_string()]);
}

#[test]
fn wildcards_at_both_ends_resolve_in_every_mode() {
    for mode in [CdMode::Origin, CdMode::Target, CdMode::Hybrid] {
        let env = env_at(PathStyle::Posix, "/elsewhere", &[]);
        let config = SearchConfiguration::new(mode)
            .scoped_to(CandidatePath::parse("/root", PathStyle::Posix));
        let disk = Disk {
            style: PathStyle::Posix,
            dirs: vec!["/root", "/root/Users", "/root/Users/Guest", "/root/Users/Guest/Desktop"],
        };
        let found = resolve("*/Guest/*top", &config, &env, &disk).unwrap();
        assert_eq!(found, vec!["/root/Users/Guest/Desktop".to_string()]);
    }
}

#[test]
fn nothing_matches_anywhere() {
    let env = env_at(PathStyle::Posix, "/root", &["/root/Projects", "/root/Users"]);
    let config = SearchConfiguration::new(CdMode::Origin);
    let failed = resolve("nonexistent_xyz", &config, &env, &tree()).unwrap_err();
    assert_eq!(failed, NcdError::NoMatch("nonexistent_xyz".to_string()));
    assert_eq!(failed.message(PathStyle::Posix), "Could not resolve \"nonexistent_xyz\"");
}

#[test]
fn two_wildcard_matches_without_list_are_ambiguous() {
    let disk = Disk {
        style: PathStyle::Posix,
        dirs: vec!["/work", "/pool", "/pool/Project_Alpha", "/pool/Project_Alpha_Beta"],
    };
    let env = env_at(PathStyle::Posix, "/work", &["/pool"]);
    let config = SearchConfiguration::new(CdMode::Origin);
    let failed = resolve("Project_Alpha*", &config, &env, &disk).unwrap_err();
    match &failed {
        NcdError::Ambiguous { root, candidates } => {
            assert_eq!(*root, None);
            let names = output_lines(candidates, PathStyle::Posix);
            assert_eq!(
                names,
                vec!["/pool/Project_Alpha".to_string(), "/pool/Project_Alpha_Beta".to_string()]
            );
        }
        other => panic!("expected an ambiguity, got {:?}", other),
    }
    assert_eq!(
        failed.message(PathStyle::Posix),
        "Ambiguous match:\n  -> /pool/Project_Alpha\n  -> /pool/Project_Alpha_Beta"
    );
}

#[test]
fn two_wildcard_matches_with_list_are_both_returned() {
    let disk = Disk {
        style: PathStyle::Posix,
        dirs: vec!["/work", "/pool", "/pool/Project_Alpha", "/pool/Project_Alpha_Beta"],
    };
    let env = env_at(PathStyle::Posix, "/work", &["/pool"]);
    let config = SearchConfiguration::new(CdMode::Origin).with_list(true);
    let found = resolve("Project_Alpha*", &config, &env, &disk).unwrap();
    assert_eq!(
        found,
        vec!["/pool/Project_Alpha".to_string(), "/pool/Project_Alpha_Beta".to_string()]
    );
}

#[test]
fn two_plain_matches_at_one_root_name_the_root() {
    let disk = Disk {
        style: PathStyle::Posix,
        dirs: vec!["/work", "/work/alpha_one", "/work/alpha_two"],
    };
    let env = env_at(PathStyle::Posix, "/work", &[]);
    let config = SearchConfiguration::from_flags(CdMode::Origin, false, false, true);
    let failed = resolve("alpha", &config, &env, &disk).unwrap_err();
    assert_eq!(
        failed.message(PathStyle::Posix),
        "Ambiguous match in /work:\n  -> /work/alpha_one\n  -> /work/alpha_two"
    );
    let listing = SearchConfiguration::from_flags(CdMode::Origin, false, true, true);
    assert_eq!(
        resolve("alpha", &listing, &env, &disk).unwrap(),
        vec!["/work/alpha_one".to_string(), "/work/alpha_two".to_string()]
    );
    let as_is = SearchConfiguration::from_flags(CdMode::Origin, false, false, false);
    assert_eq!(
        resolve("alpha", &as_is, &env, &disk).unwrap_err(),
        NcdError::NoMatch("alpha".to_string())
    );
}

#[test]
fn existing_child_beats_the_search_path() {
    let disk = Disk {
        style: PathStyle::Posix,
        dirs: vec!["/work", "/work/docs", "/pool", "/pool/docs", "/pool/docs2"],
    };
    let env = env_at(PathStyle::Posix, "/work", &["/pool"]);
    for list in [false, true] {
        let config = SearchConfiguration::new(CdMode::Origin).with_list(list);
        assert_eq!(resolve("docs", &config, &env, &disk).unwrap(), vec!["/work/docs".to_string()]);
    }
}

#[test]
fn existing_relative_path_is_followed_child_by_child() {
    let env = env_at(PathStyle::Posix, "/root", &["/root/Users"]);
    let config = SearchConfiguration::new(CdMode::Origin);
    assert_eq!(
        resolve("Projects/ncd/src", &config, &env, &tree()).unwrap(),
        vec!["/root/Projects/ncd/src".to_string()]
    );
    assert_eq!(
        resolve("Projects\\ncd/", &config, &env, &tree()).unwrap(),
        vec!["/root/Projects/ncd".to_string()]
    );
}

#[test]
fn search_path_is_consulted_after_the_current_directory() {
    let env = env_at(PathStyle::Posix, "/root/Users", &["/root/Projects", "/root/Projects"]);
    let config = SearchConfiguration::new(CdMode::Origin);
    assert_eq!(
        resolve("ncd/src", &config, &env, &tree()).unwrap(),
        vec!["/root/Projects/ncd/src".to_string()]
    );
}

#[test]
fn shorthands_resolve_at_once() {
    let mut env = env_at(PathStyle::Posix, "/root/Users", &[]);
    let config = SearchConfiguration::new(CdMode::Origin);
    let index = DirectoryIndex::new();
    let texts = |r: Result<Vec<CandidatePath>, NcdError>| output_lines(&r.unwrap(), PathStyle::Posix);
    assert_eq!(texts(evaluate_jump(".", &config, &env, &index)), vec!["/root/Users".to_string()]);
    assert_eq!(texts(evaluate_jump("./", &config, &env, &index)), vec!["/root/Users".to_string()]);
    assert_eq!(texts(evaluate_jump("..", &config, &env, &index)), vec!["/root".to_string()]);
    assert_eq!(texts(evaluate_jump("/", &config, &env, &index)), vec!["/".to_string()]);
    assert_eq!(
        evaluate_jump("~", &config, &env, &index),
        Err(NcdError::EnvironmentMissing("home directory".to_string()))
    );
    assert_eq!(
        evaluate_jump("-", &config, &env, &index),
        Err(NcdError::EnvironmentMissing("previous directory".to_string()))
    );
    env.home = Some(CandidatePath::parse("/home/me", PathStyle::Posix));
    env.previous = Some(CandidatePath::parse("/tmp", PathStyle::Posix));
    assert_eq!(texts(evaluate_jump("~", &config, &env, &index)), vec!["/home/me".to_string()]);
    assert_eq!(texts(evaluate_jump("-", &config, &env, &index)), vec!["/tmp".to_string()]);
    let root = env_at(PathStyle::Posix, "/", &[]);
    assert_eq!(texts(evaluate_jump("..", &config, &root, &index)), vec!["/".to_string()]);
}

#[test]
fn an_unlisted_directory_stops_the_search_and_is_named() {
    let env = env_at(PathStyle::Posix, "/work", &[]);
    let config = SearchConfiguration::new(CdMode::Origin);
    let mut index = DirectoryIndex::new();
    let cwd = CandidatePath::parse("/work", PathStyle::Posix);
    assert_eq!(evaluate_jump("docs", &config, &env, &index), Err(NcdError::Unlisted(cwd.clone())));
    index.record(cwd.clone(), Probe::Directory(DirRecord::plain(&cwd, vec!["docs".to_string()])));
    let child = cwd.child("docs");
    let failed = evaluate_jump("docs", &config, &env, &index).unwrap_err();
    assert_eq!(failed, NcdError::Unlisted(child.clone()));
    assert_eq!(failed.message(PathStyle::Posix), "No listing for /work/docs");
    index.record(child.clone(), Probe::Absent);
    assert_eq!(evaluate_jump("docs", &config, &env, &index), Ok(vec![child.clone()]));
    index.record(child.clone(), Probe::Directory(DirRecord::plain(&child, vec![])));
    assert_eq!(evaluate_jump("docs", &config, &env, &index), Ok(vec![child]));
}

#[test]
fn fan_out_follows_every_match_and_merges_repeats() {
    let disk = Disk {
        style: PathStyle::Posix,
        dirs: vec!["/r", "/r/a1", "/r/a2", "/r/a1/src", "/r/a2/src", "/r/a2/doc"],
    };
    let env = env_at(PathStyle::Posix, "/r", &[]);
    let listing = SearchConfiguration::new(CdMode::Origin).with_list(true);
    assert_eq!(
        resolve("a*/src", &listing, &env, &disk).unwrap(),
        vec!["/r/a1/src".to_string(), "/r/a2/src".to_string()]
    );
    let single = SearchConfiguration::new(CdMode::Origin);
    assert_eq!(resolve("a*/doc", &single, &env, &disk).unwrap(), vec!["/r/a2/doc".to_string()]);
    assert!(matches!(
        resolve("a*/src", &single, &env, &disk),
        Err(NcdError::Ambiguous { root: None, .. })
    ));
    assert_eq!(
        resolve("a*/..", &listing, &env, &disk).unwrap(),
        vec!["/r".to_string(), "/r".to_string()]
    );
}
