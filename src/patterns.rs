//! The raw pattern list handed to the compiler.
use vstd::prelude::*;
use vstd::utf8::encode_utf8;

verus! {

/// Patterns in the order they were given.
pub struct CompilerPatterns {
    pub patterns: Vec<String>,
}

/// The text of `ps`, each pattern followed by a line feed.
pub open spec fn lines_text(ps: Seq<Seq<char>>) -> Seq<char>
    decreases ps.len(),
{
    if ps.len() == 0 {
        seq![]
    } else {
        lines_text(ps.drop_last()) + ps.last() + seq!['\n']
    }
}

/// The UTF-8 bytes of each pattern.
pub open spec fn pattern_bytes(ps: Seq<Seq<char>>) -> Seq<Seq<u8>> {
    Seq::new(ps.len(), |k: int| encode_utf8(ps[k]))
}

impl View for CompilerPatterns {
    type V = Seq<Seq<char>>;

    open spec fn view(&self) -> Seq<Seq<char>> {
        Seq::new(self.patterns@.len(), |k: int| self.patterns@[k]@)
    }
}

impl CompilerPatterns {
    pub fn new() -> (r: Self)
        ensures
            r@ == Seq::<Seq<char>>::empty(),
    {
        let r = CompilerPatterns { patterns: Vec::new() };
        assert(r@ =~= Seq::<Seq<char>>::empty());
        r
    }

    pub fn add_pattern(&mut self, pattern: &str)
        ensures
            final(self)@ == old(self)@.push(pattern@),
    {
        self.patterns.push(pattern.to_owned());
        assert(final(self)@ =~= old(self)@.push(pattern@));
    }

    /// Collects borrowed patterns, keeping their order.
    pub fn from_strs(value: Vec<&str>) -> (r: Self)
        ensures
            r@ == Seq::new(value@.len(), |k: int| value@[k]@),
    {
        let mut patterns: Vec<String> = Vec::new();
        let mut i: usize = 0;
        while i < value.len()
            invariant
                i <= value@.len(),
                patterns@.len() == i,
                forall|k: int| 0 <= k < i ==> #[trigger] patterns@[k]@ == value@[k]@,
            decreases value@.len() - i,
        {
            patterns.push(value[i].to_owned());
            i = i + 1;
        }
        let r = CompilerPatterns { patterns };
        assert(r@ =~= Seq::new(value@.len(), |k: int| value@[k]@));
        r
    }

    pub fn len(&self) -> (r: usize)
        ensures
            r == self@.len(),
    {
        self.patterns.len()
    }

    /// Each pattern followed by a line feed.
    pub fn to_text(&self) -> (r: String)
        ensures
            r@ == lines_text(self@),
    {
        let mut out = String::new();
        let mut i: usize = 0;
        while i < self.patterns.len()
            invariant
                i <= self@.len(),
                out@ == lines_text(self@.take(i as int)),
            decreases self@.len() - i,
        {
            proof {
                assert(self@.take(i + 1).drop_last() =~= self@.take(i as int));
            }
            out.append(self.patterns[i].as_str());
            out.append("\n");
            proof {
                reveal_strlit("\n");
                assert(out@ =~= lines_text(self@.take(i + 1)));
            }
            i = i + 1;
        }
        proof {
            assert(self@.take(self@.len() as int) =~= self@);
        }
        out
    }

    /// The UTF-8 bytes of each pattern, in order.
    pub fn to_bytes(&self) -> (r: Vec<Vec<u8>>)
        ensures
            r@.len() == self@.len(),
            forall|k: int| 0 <= k < r@.len() ==> #[trigger] r@[k]@ == pattern_bytes(self@)[k],
    {
        let mut out: Vec<Vec<u8>> = Vec::new();
        let mut i: usize = 0;
        while i < self.patterns.len()
            invariant
                i <= self@.len(),
                out@.len() == i,
                forall|k: int| 0 <= k < i ==> #[trigger] out@[k]@ == pattern_bytes(self@)[k],
            decreases self@.len() - i,
        {
            let b = self.patterns[i].as_str().as_bytes();
            let mut v: Vec<u8> = Vec::new();
            let mut j: usize = 0;
            while j < b.len()
                invariant
                    j <= b@.len(),
                    v@ == b@.subrange(0, j as int),
                decreases b@.len() - j,
            {
                v.push(b[j]);
                j = j + 1;
                assert(v@ =~= b@.subrange(0, j as int));
            }
            assert(v@ =~= b@);
            out.push(v);
            i = i + 1;
        }
        out
    }
}

impl From<Vec<String>> for CompilerPatterns {
    fn from(value: Vec<String>) -> (r: Self) {
        CompilerPatterns { patterns: value }
    }
}

impl vstd::std_specs::convert::FromSpecImpl<Vec<String>> for CompilerPatterns {
    open spec fn obeys_from_spec() -> bool {
        true
    }

    open spec fn from_spec(v: Vec<String>) -> Self {
        CompilerPatterns { patterns: v }
    }
}

} // verus!
