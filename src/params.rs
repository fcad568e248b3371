//! Match parameters: named scan switches and numeric settings.
use vstd::prelude::*;
use crate::scan::ScanOptions;
use crate::text::{chars_equal, joined, strip_dashes, stripped};

verus! {

/// One parameter value.
pub struct MatchParam {
    value: usize,
}

impl MatchParam {
    pub fn new(value: usize) -> (r: Self)
        ensures
            r.value() == value,
    {
        MatchParam { value }
    }

    pub closed spec fn value(&self) -> usize {
        self.value
    }

    pub fn get_value(&self) -> (r: &usize)
        ensures
            *r == self.value(),
    {
        &self.value
    }
}

/// The parameters a scan can be given.
#[derive(Clone, Copy, Debug, PartialEq, Eq, Structural, Hash)]
pub enum MatchParamsType {
    IgnoreCase,
    WordBoundary,
    ElideWhitespace,
    LongestOnly,
    NoOverlap,
    WordPrefix,
    WordSuffix,
    LineStart,
    LineEnd,
    Threads,
    ChunkSize,
    OutputToFile,
}

/// The parameter a name denotes once its dashes are removed.
pub open spec fn param_of(name: Seq<char>) -> Option<MatchParamsType> {
    if name == "ignorecase"@ {
        Some(MatchParamsType::IgnoreCase)
    } else if name == "wordboundary"@ {
        Some(MatchParamsType::WordBoundary)
    } else if name == "elidewhitespace"@ {
        Some(MatchParamsType::ElideWhitespace)
    } else if name == "longestonly"@ {
        Some(MatchParamsType::LongestOnly)
    } else if name == "nooverlap"@ {
        Some(MatchParamsType::NoOverlap)
    } else if name == "wordprefix"@ {
        Some(MatchParamsType::WordPrefix)
    } else if name == "wordsuffix"@ {
        Some(MatchParamsType::WordSuffix)
    } else if name == "linestart"@ {
        Some(MatchParamsType::LineStart)
    } else if name == "lineend"@ {
        Some(MatchParamsType::LineEnd)
    } else if name == "threads"@ {
        Some(MatchParamsType::Threads)
    } else if name == "chunksize"@ {
        Some(MatchParamsType::ChunkSize)
    } else if name == "outputtofile"@ {
        Some(MatchParamsType::OutputToFile)
    } else {
        None
    }
}

/// Whether `name`, dashes aside, denotes a parameter.
pub open spec fn is_param_name(name: Seq<char>) -> bool {
    param_of(strip_dashes(name)) is Some
}

/// The parameter `name` denotes; meaningful where `is_param_name(name)`.
pub open spec fn param_named(name: Seq<char>) -> MatchParamsType {
    param_of(strip_dashes(name))->0
}

pub const PARAM_COUNT: usize = 12;

/// Where a parameter's value is kept.
pub open spec fn slot(t: MatchParamsType) -> int {
    match t {
        MatchParamsType::IgnoreCase => 0,
        MatchParamsType::WordBoundary => 1,
        MatchParamsType::ElideWhitespace => 2,
        MatchParamsType::LongestOnly => 3,
        MatchParamsType::NoOverlap => 4,
        MatchParamsType::WordPrefix => 5,
        MatchParamsType::WordSuffix => 6,
        MatchParamsType::LineStart => 7,
        MatchParamsType::LineEnd => 8,
        MatchParamsType::Threads => 9,
        MatchParamsType::ChunkSize => 10,
        MatchParamsType::OutputToFile => 11,
    }
}

pub open spec fn no_params() -> Seq<Option<usize>> {
    Seq::new(PARAM_COUNT as nat, |i: int| None::<usize>)
}

/// How many parameters are set.
pub open spec fn count_set(s: Seq<Option<usize>>) -> nat
    decreases s.len(),
{
    if s.len() == 0 {
        0
    } else {
        count_set(s.drop_last()) + if s.last() is Some {
            1nat
        } else {
            0nat
        }
    }
}

/// The values after each name of `names` is set to 1, in order.
pub open spec fn built(names: Seq<Seq<char>>) -> Seq<Option<usize>>
    decreases names.len(),
{
    if names.len() == 0 {
        no_params()
    } else {
        built(names.drop_last()).update(slot(param_named(names.last())), Some(1usize))
    }
}

/// The error text for a name that denotes no parameter.
pub open spec fn invalid_param_text(name: Seq<char>) -> Seq<char> {
    name + " is not a valid match modifier"@
}

impl MatchParamsType {
    /// Reads a parameter name; dashes anywhere in it are ignored.
    pub fn parse(s: &str) -> (r: Result<MatchParamsType, String>)
        ensures
            match param_of(strip_dashes(s@)) {
                Some(t) => r == Ok::<MatchParamsType, String>(t),
                None => r is Err && r->Err_0@ == invalid_param_text(s@),
            },
    {
        let c = stripped(s);
        if chars_equal(&c, "ignorecase") {
            return Ok(MatchParamsType::IgnoreCase);
        }
        if chars_equal(&c, "wordboundary") {
            return Ok(MatchParamsType::WordBoundary);
        }
        if chars_equal(&c, "elidewhitespace") {
            return Ok(MatchParamsType::ElideWhitespace);
        }
        if chars_equal(&c, "longestonly") {
            return Ok(MatchParamsType::LongestOnly);
        }
        if chars_equal(&c, "nooverlap") {
            return Ok(MatchParamsType::NoOverlap);
        }
        if chars_equal(&c, "wordprefix") {
            return Ok(MatchParamsType::WordPrefix);
        }
        if chars_equal(&c, "wordsuffix") {
            return Ok(MatchParamsType::WordSuffix);
        }
        if chars_equal(&c, "linestart") {
            return Ok(MatchParamsType::LineStart);
        }
        if chars_equal(&c, "lineend") {
            return Ok(MatchParamsType::LineEnd);
        }
        if chars_equal(&c, "threads") {
            return Ok(MatchParamsType::Threads);
        }
        if chars_equal(&c, "chunksize") {
            return Ok(MatchParamsType::ChunkSize);
        }
        if chars_equal(&c, "outputtofile") {
            return Ok(MatchParamsType::OutputToFile);
        }
        Err(joined(s, " is not a valid match modifier"))
    }

    pub fn slot_index(&self) -> (r: usize)
        ensures
            r == slot(*self),
            r < PARAM_COUNT,
    {
        match self {
        MatchParamsType::IgnoreCase => 0,
        MatchParamsType::WordBoundary => 1,
        MatchParamsType::ElideWhitespace => 2,
        MatchParamsType::LongestOnly => 3,
        MatchParamsType::NoOverlap => 4,
        MatchParamsType::WordPrefix => 5,
        MatchParamsType::WordSuffix => 6,
        MatchParamsType::LineStart => 7,
        MatchParamsType::LineEnd => 8,
        MatchParamsType::Threads => 9,
        MatchParamsType::ChunkSize => 10,
        MatchParamsType::OutputToFile => 11,
        }
    }
}

impl std::str::FromStr for MatchParamsType {
    type Err = String;

    fn from_str(s: &str) -> Result<Self, Self::Err> {
        MatchParamsType::parse(s)
    }
}

/// The parameters given to a scan.
pub struct MatchParams {
    set_params: Vec<Option<usize>>,
}

impl View for MatchParams {
    type V = Seq<Option<usize>>;

    closed spec fn view(&self) -> Seq<Option<usize>> {
        self.set_params@
    }
}

impl MatchParams {
    pub closed spec fn wf(&self) -> bool {
        self.set_params@.len() == PARAM_COUNT
    }

    /// No parameter set.
    pub fn new() -> (r: Self)
        ensures
            r.wf(),
            r@ == no_params(),
    {
        let mut v: Vec<Option<usize>> = Vec::new();
        let mut i: usize = 0;
        while i < PARAM_COUNT
            invariant
                i <= PARAM_COUNT,
                v@ == Seq::new(i as nat, |k: int| None::<usize>),
            decreases PARAM_COUNT - i,
        {
            v.push(None);
            i = i + 1;
            assert(v@ =~= Seq::new(i as nat, |k: int| None::<usize>));
        }
        MatchParams { set_params: v }
    }

    /// The value of the parameter `param_name` denotes, which must be set.
    pub fn get(&self, param_name: &str) -> (r: usize)
        requires
            self.wf(),
            is_param_name(param_name@),
            self@[slot(param_named(param_name@))] is Some,
        ensures
            r == self@[slot(param_named(param_name@))]->0,
    {
        match MatchParamsType::parse(param_name) {
            Ok(t) => {
                let i = t.slot_index();
                match self.set_params[i] {
                    Some(v) => v,
                    None => 0,
                }
            },
            Err(_) => 0,
        }
    }

    /// The value of parameter `t`, if set.
    pub fn value_of(&self, t: MatchParamsType) -> (r: Option<usize>)
        requires
            self.wf(),
        ensures
            r == self@[slot(t)],
    {
        self.set_params[t.slot_index()]
    }

    /// How many parameters are set.
    pub fn len(&self) -> (r: usize)
        requires
            self.wf(),
        ensures
            r == count_set(self@),
    {
        let mut n: usize = 0;
        let mut i: usize = 0;
        while i < self.set_params.len()
            invariant
                i <= self@.len(),
                self@.len() == PARAM_COUNT,
                n == count_set(self@.subrange(0, i as int)),
                n <= i,
            decreases self@.len() - i,
        {
            proof {
                assert(self@.subrange(0, i + 1).drop_last() =~= self@.subrange(0, i as int));
            }
            if self.set_params[i].is_some() {
                n = n + 1;
            }
            i = i + 1;
        }
        proof {
            assert(self@.subrange(0, self@.len() as int) =~= self@);
        }
        n
    }

    /// Whether switch `t` is set to a non-zero value.
    pub fn is_on(&self, t: MatchParamsType) -> (r: bool)
        requires
            self.wf(),
        ensures
            r == switch_on(self@, t),
    {
        match self.set_params[t.slot_index()] {
            Some(v) => v != 0,
            None => false,
        }
    }

    /// The scan switches these parameters turn on.
    pub fn scan_options(&self) -> (r: ScanOptions)
        requires
            self.wf(),
        ensures
            r == options_of(self@),
    {
        ScanOptions {
            no_overlap: self.is_on(MatchParamsType::NoOverlap),
            longest_only: self.is_on(MatchParamsType::LongestOnly),
            word_boundary: self.is_on(MatchParamsType::WordBoundary),
            word_prefix: self.is_on(MatchParamsType::WordPrefix),
            word_suffix: self.is_on(MatchParamsType::WordSuffix),
            line_start: self.is_on(MatchParamsType::LineStart),
            line_end: self.is_on(MatchParamsType::LineEnd),
        }
    }
}

/// Whether switch `t` is set to a non-zero value.
pub open spec fn switch_on(s: Seq<Option<usize>>, t: MatchParamsType) -> bool {
    s[slot(t)] is Some && s[slot(t)]->0 != 0
}

/// The scan switches parameter values turn on.
pub open spec fn options_of(s: Seq<Option<usize>>) -> ScanOptions {
    ScanOptions {
        no_overlap: switch_on(s, MatchParamsType::NoOverlap),
        longest_only: switch_on(s, MatchParamsType::LongestOnly),
        word_boundary: switch_on(s, MatchParamsType::WordBoundary),
        word_prefix: switch_on(s, MatchParamsType::WordPrefix),
        word_suffix: switch_on(s, MatchParamsType::WordSuffix),
        line_start: switch_on(s, MatchParamsType::LineStart),
        line_end: switch_on(s, MatchParamsType::LineEnd),
    }
}

/// Collects parameter values before a scan.
pub struct MatchParamsBuilder {
    params: Vec<Option<usize>>,
}

impl View for MatchParamsBuilder {
    type V = Seq<Option<usize>>;

    closed spec fn view(&self) -> Seq<Option<usize>> {
        self.params@
    }
}

impl MatchParamsBuilder {
    pub closed spec fn wf(&self) -> bool {
        self.params@.len() == PARAM_COUNT
    }

    pub fn new() -> (r: Self)
        ensures
            r.wf(),
            r@ == no_params(),
    {
        let p = MatchParams::new();
        MatchParamsBuilder { params: p.set_params }
    }

    /// Sets the parameter `param_name` denotes to `value`.
    pub fn set(&mut self, param_name: &str, value: usize) -> (r: &mut Self)
        requires
            old(self).wf(),
            is_param_name(param_name@),
        ensures
            r.wf(),
            r@ == old(self)@.update(slot(param_named(param_name@)), Some(value)),
            *final(self) == *final(r),
    {
        match MatchParamsType::parse(param_name) {
            Ok(t) => {
                let i = t.slot_index();
                self.params.set(i, Some(value));
            },
            Err(_) => {},
        }
        self
    }

    /// Sets each named parameter to 1, in order.
    pub fn from_args(args: &Vec<&str>) -> (r: Self)
        requires
            forall|k: int| 0 <= k < args@.len() ==> is_param_name(#[trigger] args@[k]@),
        ensures
            r.wf(),
            r@ == built(Seq::new(args@.len(), |k: int| args@[k]@)),
    {
        let ghost names = Seq::new(args@.len(), |k: int| args@[k]@);
        let mut b = MatchParamsBuilder::new();
        let mut i: usize = 0;
        proof {
            assert(names.take(0) =~= seq![]);
        }
        while i < args.len()
            invariant
                i <= args@.len(),
                names == Seq::new(args@.len(), |k: int| args@[k]@),
                forall|k: int| 0 <= k < args@.len() ==> is_param_name(#[trigger] args@[k]@),
                b.wf(),
                b@ == built(names.take(i as int)),
            decreases args@.len() - i,
        {
            proof {
                assert(names.take(i + 1).drop_last() =~= names.take(i as int));
                assert(names.take(i + 1).last() == args@[i as int]@);
            }
            b.set(args[i], 1);
            i = i + 1;
        }
        proof {
            assert(names.take(args@.len() as int) =~= names);
        }
        b
    }

    /// The parameters collected so far.
    pub fn build(self) -> (r: MatchParams)
        requires
            self.wf(),
        ensures
            r.wf(),
            r@ == self@,
    {
        MatchParams { set_params: self.params }
    }
}

impl From<MatchParamsBuilder> for MatchParams {
    fn from(b: MatchParamsBuilder) -> (r: MatchParams) {
        MatchParams { set_params: b.params }
    }
}

impl vstd::std_specs::convert::FromSpecImpl<MatchParamsBuilder> for MatchParams {
    open spec fn obeys_from_spec() -> bool {
        true
    }

    closed spec fn from_spec(b: MatchParamsBuilder) -> MatchParams {
        MatchParams { set_params: b.params }
    }
}

} // verus!
