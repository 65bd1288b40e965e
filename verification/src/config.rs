//! The settings of one resolution call.

use vstd::prelude::*;

use crate::error::{ErrorView, NcdError};
use crate::path::{CandidatePath, PathView};

verus! {

/// Where a fragment is matched against the search roots.
#[derive(Debug, Clone, Copy, PartialEq, Eq, Structural)]
pub enum CdMode {
    /// Match the directories found inside a search root.
    Origin,
    /// Match the search roots themselves, by their own names.
    Target,
    /// Match a root by its name first and look inside it only when that fails.
    Hybrid,
}

/// How a plain (wildcard-free) fragment is compared with a directory name
/// during a contents scan.
#[derive(Debug, Clone, Copy, PartialEq, Eq, Structural)]
pub enum DirMatch {
    /// Equality, exact or case-insensitive as the configuration says.
    AsIs,
    /// As `AsIs`, and unless the search is exact a case-insensitive prefix
    /// is accepted as well.
    Fuzzy,
}

/// The mode that `name` stands for, where it stands for one.
pub open spec fn mode_named(name: Seq<char>) -> Option<CdMode> {
    if name == "origin"@ {
        Some(CdMode::Origin)
    } else if name == "target"@ {
        Some(CdMode::Target)
    } else if name == "hybrid"@ {
        Some(CdMode::Hybrid)
    } else {
        None
    }
}

impl CdMode {
    /// The mode called `name`: one of `origin`, `target`, `hybrid`.
    pub fn parse(name: &str) -> (mode: Option<CdMode>)
        ensures
            mode == mode_named(name@),
    {
        let given = name.to_owned();
        if given == "origin".to_owned() {
            Some(CdMode::Origin)
        } else if given == "target".to_owned() {
            Some(CdMode::Target)
        } else if given == "hybrid".to_owned() {
            Some(CdMode::Hybrid)
        } else {
            None
        }
    }

    /// The mode that the mode selector asks for with `value`. A value that
    /// names no mode is an invalid argument.
    pub fn from_flag(value: &str) -> (mode: Result<CdMode, NcdError>)
        ensures
            match mode {
                Ok(named) => mode_named(value@) == Some(named),
                Err(error) => mode_named(value@).is_none() && error@ == ErrorView::InvalidArgument(
                    "Invalid cd mode."@,
                ),
            },
    {
        match CdMode::parse(value) {
            Some(named) => Ok(named),
            None => Err(NcdError::InvalidArgument("Invalid cd mode.".to_owned())),
        }
    }

    /// The mode to start from when the default-mode setting holds
    /// `setting`: the mode it names, and `Origin` where it is unset or
    /// names none.
    pub fn from_setting(setting: Option<&str>) -> (mode: CdMode)
        ensures
            mode == match setting {
                Some(name) => match mode_named(name@) {
                    Some(named) => named,
                    None => CdMode::Origin,
                },
                None => CdMode::Origin,
            },
    {
        match setting {
            Some(name) => match CdMode::parse(name) {
                Some(named) => named,
                None => CdMode::Origin,
            },
            None => CdMode::Origin,
        }
    }
}

/// The mathematical value of a configuration.
pub struct ConfigView {
    pub mode: CdMode,
    pub exact: bool,
    pub list: bool,
    pub dir_match: DirMatch,
    pub scope_override: Option<PathView>,
}

/// The settings of one resolution call, fixed for its duration.
#[derive(Debug)]
pub struct SearchConfiguration {
    /// What of a search root is matched: its contents, itself, or both.
    pub mode: CdMode,
    /// Whether case must match as stored on disk.
    pub exact: bool,
    /// Whether all matches are collected instead of one being demanded.
    pub list: bool,
    /// How a contents scan compares a plain fragment with a name.
    pub dir_match: DirMatch,
    /// A single directory that stands in place of the default search roots.
    pub scope_override: Option<CandidatePath>,
}

impl View for SearchConfiguration {
    type V = ConfigView;

    open spec fn view(&self) -> ConfigView {
        ConfigView {
            mode: self.mode,
            exact: self.exact,
            list: self.list,
            dir_match: self.dir_match,
            scope_override: match self.scope_override {
                Some(scope) => Some(scope@),
                None => None,
            },
        }
    }
}

impl SearchConfiguration {
    /// The configuration for `mode` with every toggle off and no scope.
    pub fn new(mode: CdMode) -> (config: SearchConfiguration)
        ensures
            config@ == (ConfigView {
                mode,
                exact: false,
                list: false,
                dir_match: DirMatch::AsIs,
                scope_override: None,
            }),
    {
        SearchConfiguration {
            mode,
            exact: false,
            list: false,
            dir_match: DirMatch::AsIs,
            scope_override: None,
        }
    }

    /// The configuration that the flags of a command line ask for: the
    /// fuzzy toggle picks the fuzzy contents scan.
    pub fn from_flags(mode: CdMode, exact: bool, list: bool, fuzzy: bool) -> (config:
        SearchConfiguration)
        ensures
            config@ == (ConfigView {
                mode,
                exact,
                list,
                dir_match: if fuzzy {
                    DirMatch::Fuzzy
                } else {
                    DirMatch::AsIs
                },
                scope_override: None,
            }),
    {
        SearchConfiguration {
            mode,
            exact,
            list,
            dir_match: if fuzzy {
                DirMatch::Fuzzy
            } else {
                DirMatch::AsIs
            },
            scope_override: None,
        }
    }

    /// This configuration with the exact-match toggle set to `exact`.
    pub fn with_exact(self, exact: bool) -> (config: SearchConfiguration)
        ensures
            config@ == (ConfigView { exact, ..self@ }),
    {
        SearchConfiguration { exact, ..self }
    }

    /// This configuration with the list-all toggle set to `list`.
    pub fn with_list(self, list: bool) -> (config: SearchConfiguration)
        ensures
            config@ == (ConfigView { list, ..self@ }),
    {
        SearchConfiguration { list, ..self }
    }

    /// This configuration with the contents scan set to `dir_match`.
    pub fn with_dir_match(self, dir_match: DirMatch) -> (config: SearchConfiguration)
        ensures
            config@ == (ConfigView { dir_match, ..self@ }),
    {
        SearchConfiguration { dir_match, ..self }
    }

    /// This configuration with `scope` as the one directory to search.
    pub fn scoped_to(self, scope: CandidatePath) -> (config: SearchConfiguration)
        ensures
            config@ == (ConfigView { scope_override: Some(scope@), ..self@ }),
    {
        SearchConfiguration { scope_override: Some(scope), ..self }
    }
}

} // verus!
