//! Run-wide modifiers of a match run and the option helpers of the command line.
use vstd::prelude::*;
use crate::params::{built, is_param_name, MatchParams, MatchParamsBuilder, MatchParamsType};
use crate::text::{chars_equal, joined, strip_dashes, stripped};

verus! {

/// A modifier of a whole match run.
#[derive(Clone, Copy, Debug, PartialEq, Eq, Structural)]
pub enum MatchModifiers {
    Verbose,
}

/// The modifier a name denotes once its dashes are removed.
pub open spec fn modifier_of(name: Seq<char>) -> Option<MatchModifiers> {
    if name == "v"@ || name == "verbose"@ {
        Some(MatchModifiers::Verbose)
    } else {
        None
    }
}

pub open spec fn is_modifier_name(name: Seq<char>) -> bool {
    modifier_of(strip_dashes(name)) is Some
}

impl MatchModifiers {
    /// Reads a modifier name; dashes anywhere in it are ignored.
    pub fn parse(s: &str) -> (r: Result<MatchModifiers, String>)
        ensures
            match modifier_of(strip_dashes(s@)) {
                Some(m) => r == Ok::<MatchModifiers, String>(m),
                None => r is Err && r->Err_0@ == s@ + " is not a valid match modifier"@,
            },
    {
        let c = stripped(s);
        if chars_equal(&c, "v") || chars_equal(&c, "verbose") {
            Ok(MatchModifiers::Verbose)
        } else {
            Err(joined(s, " is not a valid match modifier"))
        }
    }
}

impl std::str::FromStr for MatchModifiers {
    type Err = String;

    fn from_str(s: &str) -> Result<Self, Self::Err> {
        MatchModifiers::parse(s)
    }
}

/// Which modifiers are enabled; passed explicitly to whoever reads them.
#[derive(Clone, Copy, Debug, PartialEq, Eq, Structural)]
pub struct ModifierTable {
    pub verbose: bool,
}

/// Whether `m` is enabled in `t`.
pub open spec fn enabled(t: ModifierTable, m: MatchModifiers) -> bool {
    match m {
        MatchModifiers::Verbose => t.verbose,
    }
}

impl ModifierTable {
    /// Nothing enabled.
    pub fn new() -> (r: Self)
        ensures
            !r.verbose,
    {
        ModifierTable { verbose: false }
    }

    pub fn enable(&mut self, modifier: MatchModifiers)
        ensures
            enabled(*final(self), modifier),
            forall|m: MatchModifiers| m != modifier ==> enabled(*final(self), m) == enabled(
                *old(self),
                m,
            ),
    {
        match modifier {
            MatchModifiers::Verbose => {
                self.verbose = true;
            },
        }
    }

    pub fn is_enabled(&self, modifier: MatchModifiers) -> (r: bool)
        ensures
            r == enabled(*self, modifier),
    {
        match modifier {
            MatchModifiers::Verbose => self.verbose,
        }
    }
}

impl Default for ModifierTable {
    fn default() -> (r: Self)
        ensures
            !r.verbose,
    {
        Self::new()
    }
}

/// Sets to 1 each parameter that the given option names denote.
pub fn get_options(opts: &Vec<&str>) -> (r: MatchParams)
    requires
        forall|k: int| 0 <= k < opts@.len() ==> is_param_name(#[trigger] opts@[k]@),
    ensures
        r.wf(),
        r@ == built(Seq::new(opts@.len(), |k: int| opts@[k]@)),
{
    let builder = MatchParamsBuilder::from_args(opts);
    builder.build()
}

/// Whether `opt`, dashes aside, names a match parameter.
pub fn is_match_option(opt: &str) -> (r: bool)
    ensures
        r == is_param_name(opt@),
{
    match MatchParamsType::parse(opt) {
        Err(_) => false,
        Ok(_) => true,
    }
}

/// Enables the modifier `modifier` names.
pub fn enable_modifier(table: &mut ModifierTable, modifier: &str)
    requires
        is_modifier_name(modifier@),
    ensures
        enabled(*final(table), modifier_of(strip_dashes(modifier@))->0),
        forall|m: MatchModifiers|
            m != modifier_of(strip_dashes(modifier@))->0 ==> enabled(*final(table), m) == enabled(
                *old(table),
                m,
            ),
{
    match MatchModifiers::parse(modifier) {
        Ok(m) => table.enable(m),
        Err(_) => {},
    }
}

/// Whether the modifier `modifier` names is enabled.
pub fn is_enabled(table: &ModifierTable, modifier: &str) -> (r: bool)
    requires
        is_modifier_name(modifier@),
    ensures
        r == enabled(*table, modifier_of(strip_dashes(modifier@))->0),
{
    match MatchModifiers::parse(modifier) {
        Ok(m) => table.is_enabled(m),
        Err(_) => false,
    }
}

} // verus!
