//! The command line, one argument at a time.
//!
//! The caller reads the arguments and hands each to `accept`, which says
//! what it means for the settings and what the caller is to do next.

use vstd::prelude::*;

use crate::config::{mode_named, CdMode, ConfigView, DirMatch, SearchConfiguration};
use crate::error::{ErrorView, NcdError};

verus! {

/// The mathematical value of an argument.
pub enum ArgumentView {
    Short(char),
    Long(Seq<char>),
    Value(Seq<char>),
}

/// One argument of the command line, as the caller's parser tells it.
#[derive(Debug, PartialEq, Eq)]
pub enum Argument {
    /// A short option, such as `-l`.
    Short(char),
    /// A long option, such as `--list`, without its dashes.
    Long(String),
    /// A free-standing value: the query.
    Value(String),
}

impl View for Argument {
    type V = ArgumentView;

    open spec fn view(&self) -> ArgumentView {
        match self {
            Argument::Short(c) => ArgumentView::Short(*c),
            Argument::Long(name) => ArgumentView::Long(name@),
            Argument::Value(value) => ArgumentView::Value(value@),
        }
    }
}

/// What the caller is to do after an argument.
#[derive(Debug, Clone, Copy, PartialEq, Eq, Structural)]
pub enum Step {
    /// Go on to the next argument.
    Continue,
    /// Read the value of the mode selector and hand it to `accept_mode`.
    ReadMode,
    /// Print the help text and end.
    ShowHelp,
}

/// The mathematical value of the settings of a command line.
pub struct CommandLineView {
    pub query: Option<Seq<char>>,
    pub quiet: bool,
    pub exact: bool,
    pub list: bool,
    pub fuzzy: bool,
    pub mode: CdMode,
}

/// The settings that the arguments read so far ask for.
#[derive(Debug)]
pub struct CommandLine {
    /// The query, where one was given; the last one counts.
    pub query: Option<String>,
    /// Whether a failure to resolve is to go unreported.
    pub quiet: bool,
    /// The exact-match toggle.
    pub exact: bool,
    /// The list-all toggle.
    pub list: bool,
    /// The fuzzy toggle.
    pub fuzzy: bool,
    /// The mode, from the default-mode setting or the mode selector.
    pub mode: CdMode,
}

impl View for CommandLine {
    type V = CommandLineView;

    open spec fn view(&self) -> CommandLineView {
        CommandLineView {
            query: match self.query {
                Some(q) => Some(q@),
                None => None,
            },
            quiet: self.quiet,
            exact: self.exact,
            list: self.list,
            fuzzy: self.fuzzy,
            mode: self.mode,
        }
    }
}

/// What an argument is, as the options go.
pub enum Meaning {
    Help,
    List,
    Quiet,
    Exact,
    Fuzzy,
    Mode,
    Query(Seq<char>),
    Unknown,
}

/// What `argument` means: each option by its letter or by its name, and a
/// free-standing value as the query.
pub open spec fn meaning(argument: ArgumentView) -> Meaning {
    match argument {
        ArgumentView::Short(c) => if c == 'h' {
            Meaning::Help
        } else if c == 'l' {
            Meaning::List
        } else if c == 'q' {
            Meaning::Quiet
        } else if c == 'e' {
            Meaning::Exact
        } else if c == 'f' {
            Meaning::Fuzzy
        } else {
            Meaning::Unknown
        },
        ArgumentView::Long(name) => if name == "help"@ {
            Meaning::Help
        } else if name == "list"@ {
            Meaning::List
        } else if name == "quiet"@ {
            Meaning::Quiet
        } else if name == "exact"@ {
            Meaning::Exact
        } else if name == "fuzzy"@ {
            Meaning::Fuzzy
        } else if name == "cd"@ {
            Meaning::Mode
        } else {
            Meaning::Unknown
        },
        ArgumentView::Value(value) => Meaning::Query(value),
    }
}

/// The settings after `argument`: a toggle is set, a query takes the place
/// of an earlier one, and every other argument leaves them as they are.
pub open spec fn settings_after(line: CommandLineView, argument: ArgumentView)
    -> CommandLineView {
    match meaning(argument) {
        Meaning::List => CommandLineView { list: true, ..line },
        Meaning::Quiet => CommandLineView { quiet: true, ..line },
        Meaning::Exact => CommandLineView { exact: true, ..line },
        Meaning::Fuzzy => CommandLineView { fuzzy: true, ..line },
        Meaning::Query(value) => CommandLineView { query: Some(value), ..line },
        _ => line,
    }
}

/// What the caller is to do after `argument`, or the error that ends the
/// reading: an argument that is no option and no value is unexpected.
pub open spec fn step_after(argument: ArgumentView) -> Result<Step, ErrorView> {
    match meaning(argument) {
        Meaning::Help => Ok(Step::ShowHelp),
        Meaning::Mode => Ok(Step::ReadMode),
        Meaning::Unknown => Err(ErrorView::InvalidArgument("Unexpected argument"@)),
        _ => Ok(Step::Continue),
    }
}

/// Whether `name` is the text `expected`.
fn is_text(name: &String, expected: &str) -> (same: bool)
    ensures
        same == (name@ == expected@),
{
    *name == expected.to_owned()
}

impl CommandLine {
    /// The settings before any argument: every toggle off, no query, and
    /// the mode that the default-mode setting names.
    pub fn new(default_mode: Option<&str>) -> (line: CommandLine)
        ensures
            line@ == (CommandLineView {
                query: None,
                quiet: false,
                exact: false,
                list: false,
                fuzzy: false,
                mode: match default_mode {
                    Some(name) => match mode_named(name@) {
                        Some(named) => named,
                        None => CdMode::Origin,
                    },
                    None => CdMode::Origin,
                },
            }),
    {
        CommandLine {
            query: None,
            quiet: false,
            exact: false,
            list: false,
            fuzzy: false,
            mode: CdMode::from_setting(default_mode),
        }
    }

    /// Takes one argument.
    pub fn accept(&mut self, argument: Argument) -> (step: Result<Step, NcdError>)
        ensures
            final(self)@ == settings_after(old(self)@, argument@),
            match step {
                Ok(next) => step_after(argument@) == Ok::<Step, ErrorView>(next),
                Err(error) => step_after(argument@) == Err::<Step, ErrorView>(error@),
            },
    {
        match argument {
            Argument::Short(c) => {
                if c == 'h' {
                    Ok(Step::ShowHelp)
                } else if c == 'l' {
                    self.list = true;
                    Ok(Step::Continue)
                } else if c == 'q' {
                    self.quiet = true;
                    Ok(Step::Continue)
                } else if c == 'e' {
                    self.exact = true;
                    Ok(Step::Continue)
                } else if c == 'f' {
                    self.fuzzy = true;
                    Ok(Step::Continue)
                } else {
                    Err(NcdError::InvalidArgument("Unexpected argument".to_owned()))
                }
            },
            Argument::Long(name) => {
                if is_text(&name, "help") {
                    Ok(Step::ShowHelp)
                } else if is_text(&name, "list") {
                    self.list = true;
                    Ok(Step::Continue)
                } else if is_text(&name, "quiet") {
                    self.quiet = true;
                    Ok(Step::Continue)
                } else if is_text(&name, "exact") {
                    self.exact = true;
                    Ok(Step::Continue)
                } else if is_text(&name, "fuzzy") {
                    self.fuzzy = true;
                    Ok(Step::Continue)
                } else if is_text(&name, "cd") {
                    Ok(Step::ReadMode)
                } else {
                    Err(NcdError::InvalidArgument("Unexpected argument".to_owned()))
                }
            },
            Argument::Value(value) => {
                self.query = Some(value);
                Ok(Step::Continue)
            },
        }
    }

    /// Takes the value of the mode selector: the mode it names becomes the
    /// mode, and a value that names none is an invalid argument and
    /// changes nothing.
    pub fn accept_mode(&mut self, value: &str) -> (taken: Result<(), NcdError>)
        ensures
            match taken {
                Ok(_) => mode_named(value@).is_some() && final(self)@ == (CommandLineView {
                    mode: mode_named(value@).unwrap(),
                    ..old(self)@
                }),
                Err(error) => mode_named(value@).is_none() && final(self)@ == old(self)@ && error@
                    == ErrorView::InvalidArgument("Invalid cd mode."@),
            },
    {
        match CdMode::from_flag(value) {
            Ok(named) => {
                self.mode = named;
                Ok(())
            },
            Err(error) => Err(error),
        }
    }

    /// The configuration that the settings ask for.
    pub fn configuration(&self) -> (config: SearchConfiguration)
        ensures
            config@ == (ConfigView {
                mode: self@.mode,
                exact: self@.exact,
                list: self@.list,
                dir_match: if self@.fuzzy {
                    DirMatch::Fuzzy
                } else {
                    DirMatch::AsIs
                },
                scope_override: None,
            }),
    {
        SearchConfiguration::from_flags(self.mode, self.exact, self.list, self.fuzzy)
    }
}

} // verus!
