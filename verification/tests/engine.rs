use ncd::output::output_lines;
use ncd::{
    evaluate_jump, search_cdpath, CandidatePath, CdMode, DirRecord, DirectoryIndex, Environment,
    NcdError, PathStyle, Probe, SearchConfiguration,
};

const WIN: PathStyle = PathStyle::Windows;

/// A disk that holds these directories and nothing else, each stored under
/// the name it is listed by.
struct Disk {
    dirs: Vec<&'static str>,
}

impl Disk {
    fn probe(&self, path: &CandidatePath) -> Probe {
        let text = path.to_text(WIN);
        if !self.dirs.iter().any(|d| *d == text) {
            return Probe::Absent;
        }
        let mut children = Vec::new();
        for d in &self.dirs {
            let p = CandidatePath::parse(d, WIN);
            if p.depth() > 0 && p.parent() == *path {
                children.push(p.components[p.components.len() - 1].clone());
            }
        }
        Probe::Directory(DirRecord::plain(path, children))
    }
}

fn env_at(cwd: &str) -> Environment {
    Environment {
        style: WIN,
        cwd: CandidatePath::parse(cwd, WIN),
        search_path: vec![CandidatePath::parse("V:\\Projects", WIN)],
        home: None,
        previous: None,
    }
}

fn settings(mode: CdMode, exact: bool, list: bool, scope: Option<&str>) -> SearchConfiguration {
    let config = SearchConfiguration::new(mode).with_exact(exact).with_list(list);
    match scope {
        Some(root) => config.scoped_to(CandidatePath::parse(root, WIN)),
        None => config,
    }
}

fn jump(query: &str, mode: CdMode, exact: bool, list: bool, env: &Environment, disk: &Disk)
    -> Vec<CandidatePath> {
    let config = settings(mode, exact, list, None);
    let mut index = DirectoryIndex::new();
    loop {
        match evaluate_jump(query, &config, env, &index) {
            Err(NcdError::Unlisted(path)) => {
                let probe = disk.probe(&path);
                index.record(path, probe);
            }
            Ok(paths) => return paths,
            Err(_) => return Vec::new(),
        }
    }
}

fn search(name: &str, mode: CdMode, exact: bool, list: bool, scope: &str, disk: &Disk)
    -> Vec<CandidatePath> {
    let config = settings(mode, exact, list, Some(scope));
    let env = env_at("V:\\elsewhere");
    let mut index = DirectoryIndex::new();
    loop {
        match search_cdpath(name, &config, &env.cwd, &env.search_path, &index) {
            Err(NcdError::Unlisted(path)) => {
                let probe = disk.probe(&path);
                index.record(path, probe);
            }
            Ok(paths) => return paths,
            Err(other) => panic!("search failed: {:?}", other),
        }
    }
}

#[test]
fn test_junction_follow() {
    // The root is reached through a junction: the disk stores it under
    // another name than the one it is asked for by.
    let root = CandidatePath::parse("V:\\temp\\ncd_tests", WIN);
    let child = root.child("JunctionFollow");
    let mut index = DirectoryIndex::new();
    index.record(
        root.clone(),
        Probe::Directory(DirRecord {
            stored_name: "ncd_tests".to_string(),
            children: vec!["JunctionFollow".to_string()],
        }),
    );
    index.record(child.clone(), Probe::Directory(DirRecord::plain(&child, vec![])));
    let config = settings(CdMode::Origin, false, false, Some("V:\\temp\\ncd_tests"));
    let env = env_at("V:\\elsewhere");
    let res = search_cdpath("JunctionFollow", &config, &env.cwd, &env.search_path, &index).unwrap();
    assert!(!res.is_empty());
}

#[test]
fn test_cdpath_exact_vs_fuzzy() {
    let disk = Disk {
        dirs: vec!["V:\\tmp\\ncd_tests\\ExactFuzzy", "V:\\tmp\\ncd_tests\\ExactFuzzy\\MixedCase123"],
    };
    let root = "V:\\tmp\\ncd_tests\\ExactFuzzy";
    let actual_name = "MixedCase123";

    // Fuzzy
    let res_f = search("mixedcase123", CdMode::Origin, false, false, root, &disk);
    assert!(!res_f.is_empty());

    // Exact
    let res_e = search("mixedcase123", CdMode::Origin, true, false, root, &disk);
    if actual_name == "mixedcase123" {
        assert!(!res_e.is_empty());
    } else {
        assert!(res_e.is_empty());
    }
}

#[test]
fn test_dot_traversal() {
    let env = env_at("V:\\Projects\\ncd\\src");
    let result = jump("...", CdMode::Origin, false, false, &env, &Disk { dirs: vec![] });
    assert!(!result.is_empty());
    let expected = env.cwd.parent().parent();
    assert_eq!(result[0], expected);
    assert_eq!(result[0].to_text(WIN), "V:\\Projects");
}

#[test]
fn test_extreme_ellipsis() {
    let env = env_at("V:\\Projects\\ncd\\src");
    let result = jump(".....", CdMode::Origin, false, false, &env, &Disk { dirs: vec![] });
    assert!(!result.is_empty());
    let mut expected = env.cwd.clone();
    for _ in 0..4 {
        expected = expected.parent();
    }
    assert_eq!(result[0], expected);
    assert_eq!(result[0].to_text(WIN), "V:\\");
}

#[test]
fn test_cdpath_exact_vs_fuzzy_tmp() {
    let disk = Disk { dirs: vec!["T:\\scratch", "T:\\scratch\\MyProject"] };

    let res_fuzzy = search("myproject", CdMode::Origin, false, false, "T:\\scratch", &disk);
    assert!(!res_fuzzy.is_empty());

    let res_exact = search("myproject", CdMode::Origin, true, false, "T:\\scratch", &disk);
    assert!(res_exact.is_empty());
}

#[test]
fn test_hybrid_mode() {
    let disk = Disk { dirs: vec!["T:\\scratch", "T:\\scratch\\Work"] };
    let bookmark = CandidatePath::parse("T:\\scratch\\Work", WIN);

    let res = search("Work", CdMode::Hybrid, true, false, "T:\\scratch\\Work", &disk);
    assert!(!res.is_empty());
    assert_eq!(res[0], bookmark);
}

#[test]
fn test_root_anchored_logic() {
    let disk = Disk { dirs: vec!["V:\\", "V:\\Projects", "V:\\Projects\\ncd"] };
    let env = env_at("V:\\Projects\\ncd");
    let result = jump("\\Projects", CdMode::Origin, false, false, &env, &disk);
    assert!(!result.is_empty());
    let path_str = result[0].to_text(WIN);
    assert!(path_str.contains(":\\Projects"));
}

#[test]
fn test_wildcard_regex_logic() {
    let disk = Disk { dirs: vec!["T:\\scratch", "T:\\scratch\\testing.1"] };

    let res = search("test*.*", CdMode::Origin, false, false, "T:\\scratch", &disk);
    assert!(!res.is_empty());
    assert!(res[0].to_text(WIN).contains("testing.1"));
}

#[test]
fn test_parent_globbing() {
    let disk = Disk {
        dirs: vec!["T:\\scratch", "T:\\scratch\\parent_dir", "T:\\scratch\\parent_dir\\child_glob"],
    };
    // The current directory is the child.
    let env = env_at("T:\\scratch\\parent_dir\\child_glob");

    // '..' is the parent, 'child*' is the search.
    let res = jump("..\\child*", CdMode::Origin, false, false, &env, &disk);

    assert!(!res.is_empty());
    assert!(res[0].to_text(WIN).contains("child_glob"));
}

#[test]
fn test_root_anchored_wildcard() {
    let disk = Disk { dirs: vec!["V:\\tmp\\ncd_tests", "V:\\tmp\\ncd_tests\\WildcardTarget"] };
    let env = env_at("V:\\tmp\\ncd_tests");

    let query = "Wildcard*";
    let res = jump(query, CdMode::Hybrid, false, false, &env, &disk);

    assert!(!res.is_empty(), "Wildcard expansion failed in test root");
    assert!(res[0].to_text(WIN).contains("WildcardTarget"));
}

#[test]
fn windows_paths_are_written_with_backslashes() {
    let disk = Disk { dirs: vec!["V:\\", "V:\\Projects", "V:\\Projects\\ncd"] };
    let env = env_at("V:\\Projects\\ncd");
    let result = jump("\\Projects", CdMode::Origin, false, false, &env, &disk);
    assert_eq!(output_lines(&result, WIN), vec!["V:\\Projects".to_string()]);
    let bare = jump("\\", CdMode::Origin, false, false, &env, &disk);
    assert_eq!(output_lines(&bare, WIN), vec!["V:\\".to_string()]);
    let drive = jump("C:", CdMode::Origin, false, false, &env, &disk);
    assert_eq!(output_lines(&drive, WIN), vec!["C:\\".to_string()]);
    let walked = jump("/proj*/NCD", CdMode::Origin, false, false, &env, &disk);
    assert_eq!(output_lines(&walked, WIN), vec!["V:\\Projects\\ncd".to_string()]);
}
