//! Run modes and program modifiers named on the command line.
use vstd::prelude::*;
use crate::text::{joined, str_equal};

verus! {

/// What a run does.
#[derive(Clone, Copy, Debug, PartialEq, Eq, Structural)]
pub enum AppModes {
    UNDEFINED,
    COMPILE,
    MATCH,
}

/// Why a mode could not be read.
#[derive(Clone, Copy, Debug, PartialEq, Eq, Structural)]
pub enum AppModeErr {
    INVALID,
}

/// The mode a word names; `UNDEFINED` for any other word.
pub open spec fn mode_of(s: Seq<char>) -> AppModes {
    if s == "compile"@ {
        AppModes::COMPILE
    } else if s == "match"@ {
        AppModes::MATCH
    } else {
        AppModes::UNDEFINED
    }
}

/// The word that names a mode.
pub open spec fn mode_text(m: AppModes) -> Seq<char> {
    match m {
        AppModes::COMPILE => "compile"@,
        AppModes::MATCH => "match"@,
        AppModes::UNDEFINED => "undefined"@,
    }
}

impl AppModes {
    /// Reads a mode word; any other word gives `Err(UNDEFINED)`.
    pub fn parse(s: &str) -> (r: Result<AppModes, AppModes>)
        ensures
            mode_of(s@) != AppModes::UNDEFINED ==> r == Ok::<AppModes, AppModes>(mode_of(s@)),
            mode_of(s@) == AppModes::UNDEFINED ==> r == Err::<AppModes, AppModes>(
                AppModes::UNDEFINED,
            ),
    {
        if str_equal(s, "compile") {
            Ok(AppModes::COMPILE)
        } else if str_equal(s, "match") {
            Ok(AppModes::MATCH)
        } else {
            Err(AppModes::UNDEFINED)
        }
    }

    /// The mode a word names, `UNDEFINED` for any other word.
    pub fn from_word(s: &str) -> (r: AppModes)
        ensures
            r == mode_of(s@),
    {
        match AppModes::parse(s) {
            Ok(m) => m,
            Err(_) => AppModes::UNDEFINED,
        }
    }

    pub fn to_string(&self) -> (r: String)
        ensures
            r@ == mode_text(*self),
    {
        match self {
            AppModes::COMPILE => String::from_str("compile"),
            AppModes::MATCH => String::from_str("match"),
            AppModes::UNDEFINED => String::from_str("undefined"),
        }
    }
}

impl Default for AppModes {
    fn default() -> (r: Self)
        ensures
            r == AppModes::UNDEFINED,
    {
        AppModes::UNDEFINED
    }
}

impl std::str::FromStr for AppModes {
    type Err = AppModes;

    fn from_str(s: &str) -> Result<Self, Self::Err> {
        AppModes::parse(s)
    }
}

impl<'a> From<&'a str> for AppModes {
    fn from(value: &'a str) -> (r: Self) {
        AppModes::from_word(value)
    }
}

impl<'a> vstd::std_specs::convert::FromSpecImpl<&'a str> for AppModes {
    open spec fn obeys_from_spec() -> bool {
        true
    }

    open spec fn from_spec(v: &'a str) -> AppModes {
        mode_of(v@)
    }
}

/// The verbose modifier: `-v` or `--verbose`.
#[derive(Clone, Copy, Debug, PartialEq, Eq, Structural)]
pub struct VerboseModifier;

/// The case-insensitivity modifier: `--ignore-case`.
#[derive(Clone, Copy, Debug, PartialEq, Eq, Structural)]
pub struct IgnoreCaseModifier;

/// The word-boundary modifier: `--word-boundary`.
#[derive(Clone, Copy, Debug, PartialEq, Eq, Structural)]
pub struct WordBoundaryModifier;

/// A program modifier read from the command line.
#[derive(Clone, Copy, Debug, PartialEq, Eq, Structural)]
pub enum ProgramModifier {
    Verbose(VerboseModifier),
    IgnoreCase,
    WordBoundary,
}

/// The modifier a command-line key names.
pub open spec fn modifier_for_key(key: Seq<char>) -> Option<ProgramModifier> {
    if key == "-v"@ || key == "--verbose"@ {
        Some(ProgramModifier::Verbose(VerboseModifier))
    } else if key == "--ignore-case"@ {
        Some(ProgramModifier::IgnoreCase)
    } else if key == "--word-boundary"@ {
        Some(ProgramModifier::WordBoundary)
    } else {
        None
    }
}

/// The identifier of a modifier.
pub open spec fn modifier_id(m: ProgramModifier) -> Seq<char> {
    match m {
        ProgramModifier::Verbose(_) => "verbose"@,
        ProgramModifier::IgnoreCase => "ignore-case"@,
        ProgramModifier::WordBoundary => "word-boundary"@,
    }
}

impl VerboseModifier {
    pub fn is_key(key: &str) -> (r: bool)
        ensures
            r == (key@ == "-v"@ || key@ == "--verbose"@),
    {
        str_equal(key, "-v") || str_equal(key, "--verbose")
    }
}

impl IgnoreCaseModifier {
    pub fn is_key(key: &str) -> (r: bool)
        ensures
            r == (key@ == "--ignore-case"@),
    {
        str_equal(key, "--ignore-case")
    }
}

impl WordBoundaryModifier {
    pub fn is_key(key: &str) -> (r: bool)
        ensures
            r == (key@ == "--word-boundary"@),
    {
        str_equal(key, "--word-boundary")
    }
}

/// Something that names itself.
pub trait IsModifier {
    fn id(&self) -> &'static str;
}

impl IsModifier for VerboseModifier {
    fn id(&self) -> &'static str {
        "verbose"
    }
}

impl IsModifier for IgnoreCaseModifier {
    fn id(&self) -> &'static str {
        "ignore-case"
    }
}

impl IsModifier for WordBoundaryModifier {
    fn id(&self) -> &'static str {
        "word-boundary"
    }
}

impl ProgramModifier {
    pub fn id(&self) -> (r: &'static str)
        ensures
            r@ == modifier_id(*self),
    {
        match self {
            ProgramModifier::Verbose(_) => "verbose",
            ProgramModifier::IgnoreCase => "ignore-case",
            ProgramModifier::WordBoundary => "word-boundary",
        }
    }
}

impl IsModifier for ProgramModifier {
    fn id(&self) -> &'static str {
        ProgramModifier::id(self)
    }
}

/// Reads program modifiers from command-line keys.
pub struct ModifierParser;

impl ModifierParser {
    pub fn get(s: &str) -> (r: Result<ProgramModifier, String>)
        ensures
            match modifier_for_key(s@) {
                Some(m) => r == Ok::<ProgramModifier, String>(m),
                None => r is Err && r->Err_0@ == "Key: "@ + s@ + " is not a modifier option"@,
            },
    {
        if VerboseModifier::is_key(s) {
            Ok(ProgramModifier::Verbose(VerboseModifier))
        } else if IgnoreCaseModifier::is_key(s) {
            Ok(ProgramModifier::IgnoreCase)
        } else if WordBoundaryModifier::is_key(s) {
            Ok(ProgramModifier::WordBoundary)
        } else {
            let head = joined("Key: ", s);
            let msg = joined(head.as_str(), " is not a modifier option");
            Err(msg)
        }
    }
}

} // verus!
