//! The compiler: normalization switches, compilation into a match file, and
//! the statistics of the last compilation.
use vstd::prelude::*;
use crate::codec::{encode, encodable, encoded, views, MatchFileHeader, FORMAT_VERSION};
use crate::normalize::NormalizeConfig;
use crate::patterns::{pattern_bytes, CompilerPatterns};
use crate::stats::CompilerStats;
use crate::store::{
    compilable, header_for, lemma_stored_props, stats_of, store_patterns, stored_of,
    CompileError, MIN_PATTERN_LENGTH,
};

verus! {

/// A normalization switch of the compiler.
#[derive(Clone, Copy, Debug, PartialEq, Eq, Structural)]
pub enum CompilerOptions {
    CaseInsensitive,
    IgnorePunctionation,
    ElideWhitespace,
}

/// Whether switch `o` is on in `c`.
pub open spec fn option_on(c: NormalizeConfig, o: CompilerOptions) -> bool {
    match o {
        CompilerOptions::CaseInsensitive => c.case_insensitive,
        CompilerOptions::IgnorePunctionation => c.ignore_punctuation,
        CompilerOptions::ElideWhitespace => c.elide_whitespace,
    }
}

/// `c` with switch `o` turned on.
pub open spec fn with_option(c: NormalizeConfig, o: CompilerOptions) -> NormalizeConfig {
    match o {
        CompilerOptions::CaseInsensitive => NormalizeConfig { case_insensitive: true, ..c },
        CompilerOptions::IgnorePunctionation => NormalizeConfig { ignore_punctuation: true, ..c },
        CompilerOptions::ElideWhitespace => NormalizeConfig { elide_whitespace: true, ..c },
    }
}

pub open spec fn plain_config() -> NormalizeConfig {
    NormalizeConfig { case_insensitive: false, ignore_punctuation: false, elide_whitespace: false }
}

/// Compiles pattern lists under a fixed set of normalization switches.
pub struct Compiler {
    pub opts: NormalizeConfig,
    pub stats: CompilerStats,
}

/// The outcome of compiling `raw` under `cfg`: the match file, or `Empty`
/// when no pattern is stored.
pub open spec fn compiled(cfg: NormalizeConfig, raw: Seq<Seq<u8>>) -> Result<Seq<u8>, CompileError> {
    let st = stored_of(cfg, MIN_PATTERN_LENGTH as nat, raw);
    if st.len() == 0 {
        Err(CompileError::Empty)
    } else {
        Ok(encoded(header_for(cfg, MIN_PATTERN_LENGTH as nat, raw), st))
    }
}

pub open spec fn result_bytes(r: Result<Vec<u8>, CompileError>) -> Result<Seq<u8>, CompileError> {
    match r {
        Ok(b) => Ok(b@),
        Err(e) => Err(e),
    }
}

impl Compiler {
    pub fn new() -> (r: Self)
        ensures
            r.opts == plain_config(),
            r.stats == CompilerStats::zeroed(),
    {
        Compiler {
            opts: NormalizeConfig {
                case_insensitive: false,
                ignore_punctuation: false,
                elide_whitespace: false,
            },
            stats: CompilerStats::new(),
        }
    }

    /// Turns switch `opt` on; returns the compiler for chaining.
    pub fn set(&mut self, opt: CompilerOptions) -> (r: &mut Self)
        ensures
            r.opts == with_option(old(self).opts, opt),
            r.stats == old(self).stats,
            *final(self) == *final(r),
    {
        match opt {
            CompilerOptions::CaseInsensitive => {
                self.opts.case_insensitive = true;
            },
            CompilerOptions::IgnorePunctionation => {
                self.opts.ignore_punctuation = true;
            },
            CompilerOptions::ElideWhitespace => {
                self.opts.elide_whitespace = true;
            },
        }
        self
    }

    pub fn is_set(&self, opt: CompilerOptions) -> (r: bool)
        ensures
            r == option_on(self.opts, opt),
    {
        match opt {
            CompilerOptions::CaseInsensitive => self.opts.case_insensitive,
            CompilerOptions::IgnorePunctionation => self.opts.ignore_punctuation,
            CompilerOptions::ElideWhitespace => self.opts.elide_whitespace,
        }
    }

    /// The three switches as 0 or 1, in the order case-insensitive,
    /// ignore-punctuation, elide-whitespace.
    pub fn get_opts_as_params(&self) -> (r: [isize; 3])
        ensures
            r@ == seq![
                if self.opts.case_insensitive { 1isize } else { 0isize },
                if self.opts.ignore_punctuation { 1isize } else { 0isize },
                if self.opts.elide_whitespace { 1isize } else { 0isize },
            ],
    {
        let a: isize = if self.opts.case_insensitive { 1 } else { 0 };
        let b: isize = if self.opts.ignore_punctuation { 1 } else { 0 };
        let c: isize = if self.opts.elide_whitespace { 1 } else { 0 };
        let r = [a, b, c];
        assert(r@ =~= seq![a, b, c]);
        r
    }

    /// Compiles raw pattern lines into the bytes of a match file and records
    /// the statistics of the run, also when nothing was stored.
    pub fn compile(&mut self, raw: &Vec<Vec<u8>>) -> (r: Result<Vec<u8>, CompileError>)
        requires
            compilable(views(raw@)),
        ensures
            final(self).opts == old(self).opts,
            final(self).stats == stats_of(old(self).opts, MIN_PATTERN_LENGTH as nat, views(raw@)),
            result_bytes(r) == compiled(old(self).opts, views(raw@)),
    {
        let (st, stats) = store_patterns(&self.opts, MIN_PATTERN_LENGTH, raw);
        self.stats = stats;
        if st.len() == 0 {
            return Err(CompileError::Empty);
        }
        let ghost rv = views(raw@);
        let h = MatchFileHeader {
            version: FORMAT_VERSION,
            flags: self.opts,
            pattern_count: st.len() as u32,
        };
        proof {
            lemma_stored_props(self.opts, MIN_PATTERN_LENGTH as nat, rv);
            let sv = views(st@);
            assert forall|k: int| 0 <= k < sv.len() implies #[trigger] sv[k].len() <= u32::MAX by {
                let j = choose|j: int| 0 <= j < rv.len() && sv[k].len() <= rv[j].len();
                assert(rv[j].len() <= u32::MAX);
            }
            assert(encodable(h, sv));
            assert(h == header_for(self.opts, MIN_PATTERN_LENGTH as nat, rv));
        }
        Ok(encode(&h, &st))
    }

    /// Compiles the UTF-8 bytes of `patterns`, as `compile` does.
    pub fn compile_patterns(&mut self, patterns: &CompilerPatterns) -> (r: Result<
        Vec<u8>,
        CompileError,
    >)
        requires
            compilable(pattern_bytes(patterns@)),
        ensures
            final(self).opts == old(self).opts,
            final(self).stats == stats_of(
                old(self).opts,
                MIN_PATTERN_LENGTH as nat,
                pattern_bytes(patterns@),
            ),
            result_bytes(r) == compiled(old(self).opts, pattern_bytes(patterns@)),
    {
        let raw = patterns.to_bytes();
        assert(views(raw@) =~= pattern_bytes(patterns@));
        self.compile(&raw)
    }
}

/// An error of a compilation run, as a message.
pub struct OLMCompilerError(pub String);

impl OLMCompilerError {
    /// The message, prefixed with the library's tag.
    pub fn new(msg: &str) -> (r: Self)
        ensures
            r.0@ == "[Rust OLM] Err: "@ + msg@,
    {
        let mut s = String::from_str("[Rust OLM] Err: ");
        s.append(msg);
        OLMCompilerError(s)
    }

    /// The error of a failed compilation.
    pub fn from_compile_error(e: CompileError) -> (r: Self)
        ensures
            e == CompileError::IO ==> r.0@ == "[Rust OLM] Err: "@ + "could not read or write a file"@,
            e == CompileError::Empty ==> r.0@ == "[Rust OLM] Err: "@ + "no pattern survived filtering"@,
    {
        match e {
            CompileError::IO => Self::new("could not read or write a file"),
            CompileError::Empty => Self::new("no pattern survived filtering"),
        }
    }

    pub fn message(&self) -> (r: &str)
        ensures
            r@ == self.0@,
    {
        self.0.as_str()
    }
}

} // verus!
