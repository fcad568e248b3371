//! Normalizing, classifying and deduplicating patterns into a match file.
use vstd::prelude::*;
use crate::codec::{views, MatchFileHeader, FORMAT_VERSION};
use crate::normalize::{normalize, normalized, NormalizeConfig};
use crate::stats::CompilerStats;

verus! {

/// Patterns whose normalized form is shorter than this are never stored.
pub const MIN_PATTERN_LENGTH: usize = 2;

/// Why a compilation produced no match file.
#[derive(Clone, Copy, Debug, PartialEq, Eq, Structural)]
pub enum CompileError {
    /// The pattern source or the destination could not be read or written.
    IO,
    /// No pattern survived filtering.
    Empty,
}

/// The stored patterns, in order of first occurrence: each normalized
/// pattern of at least `min` bytes that was not stored before.
pub open spec fn stored_of(cfg: NormalizeConfig, min: nat, raw: Seq<Seq<u8>>) -> Seq<Seq<u8>>
    decreases raw.len(),
{
    if raw.len() == 0 {
        seq![]
    } else {
        let st = stored_of(cfg, min, raw.drop_last());
        let n = normalized(cfg, raw.last());
        if n.len() < min || st.contains(n) {
            st
        } else {
            st.push(n)
        }
    }
}

/// How many patterns normalize to fewer than `min` bytes.
pub open spec fn short_of(cfg: NormalizeConfig, min: nat, raw: Seq<Seq<u8>>) -> nat
    decreases raw.len(),
{
    if raw.len() == 0 {
        0
    } else {
        short_of(cfg, min, raw.drop_last()) + if normalized(cfg, raw.last()).len() < min {
            1nat
        } else {
            0nat
        }
    }
}

/// How many long-enough patterns normalize to an already stored one.
pub open spec fn duplicates_of(cfg: NormalizeConfig, min: nat, raw: Seq<Seq<u8>>) -> nat
    decreases raw.len(),
{
    if raw.len() == 0 {
        0
    } else {
        let n = normalized(cfg, raw.last());
        duplicates_of(cfg, min, raw.drop_last()) + if n.len() >= min && stored_of(
            cfg,
            min,
            raw.drop_last(),
        ).contains(n) {
            1nat
        } else {
            0nat
        }
    }
}

/// The total length of a list of byte sequences.
pub open spec fn total_len(ps: Seq<Seq<u8>>) -> nat
    decreases ps.len(),
{
    if ps.len() == 0 {
        0
    } else {
        total_len(ps.drop_last()) + ps.last().len()
    }
}

/// The length of the shortest sequence, 0 for none.
pub open spec fn smallest_len(ps: Seq<Seq<u8>>) -> nat
    decreases ps.len(),
{
    if ps.len() == 0 {
        0
    } else if ps.len() == 1 {
        ps[0].len()
    } else {
        let m = smallest_len(ps.drop_last());
        if ps.last().len() < m {
            ps.last().len()
        } else {
            m
        }
    }
}

/// The length of the longest sequence, 0 for none.
pub open spec fn largest_len(ps: Seq<Seq<u8>>) -> nat
    decreases ps.len(),
{
    if ps.len() == 0 {
        0
    } else {
        let m = largest_len(ps.drop_last());
        if ps.last().len() > m {
            ps.last().len()
        } else {
            m
        }
    }
}

/// The statistics of compiling `raw`.
pub open spec fn stats_of(cfg: NormalizeConfig, min: nat, raw: Seq<Seq<u8>>) -> CompilerStats {
    let st = stored_of(cfg, min, raw);
    CompilerStats {
        total_input_bytes: total_len(raw) as u64,
        total_stored_bytes: total_len(st) as u64,
        stored_pattern_count: st.len() as u32,
        short_pattern_count: short_of(cfg, min, raw) as u32,
        duplicate_patterns: duplicates_of(cfg, min, raw) as u32,
        smallest_pattern_length: smallest_len(st) as u32,
        largest_pattern_length: largest_len(st) as u32,
    }
}

/// The header of the match file compiled from `raw`.
pub open spec fn header_for(cfg: NormalizeConfig, min: nat, raw: Seq<Seq<u8>>) -> MatchFileHeader {
    MatchFileHeader {
        version: FORMAT_VERSION,
        flags: cfg,
        pattern_count: stored_of(cfg, min, raw).len() as u32,
    }
}

/// What compilation accepts: a pattern count and lengths that the file format can hold.
pub open spec fn compilable(raw: Seq<Seq<u8>>) -> bool {
    &&& raw.len() <= u32::MAX
    &&& total_len(raw) <= u64::MAX
    &&& forall|k: int| 0 <= k < raw.len() ==> #[trigger] raw[k].len() <= u32::MAX
}

pub proof fn lemma_normalized_len(cfg: NormalizeConfig, s: Seq<u8>)
    ensures
        normalized(cfg, s).len() <= s.len(),
    decreases s.len(),
{
    if s.len() > 0 {
        lemma_normalized_len(cfg, s.drop_last());
    }
}

pub(crate) proof fn lemma_total_len_prefix(ps: Seq<Seq<u8>>, i: int)
    requires
        0 <= i <= ps.len(),
    ensures
        total_len(ps.take(i)) <= total_len(ps),
    decreases ps.len(),
{
    if i < ps.len() {
        assert(ps.drop_last().take(i) =~= ps.take(i));
        lemma_total_len_prefix(ps.drop_last(), i);
    } else {
        assert(ps.take(i) =~= ps);
    }
}

/// Stored patterns are distinct, long enough, and each at most as long as
/// some input pattern; there are no more of them than patterns read, and
/// their bytes are no more than the bytes read.
pub proof fn lemma_stored_props(cfg: NormalizeConfig, min: nat, raw: Seq<Seq<u8>>)
    ensures
        stored_of(cfg, min, raw).len() <= raw.len(),
        total_len(stored_of(cfg, min, raw)) <= total_len(raw),
        forall|k: int|
            0 <= k < stored_of(cfg, min, raw).len() ==> min <= #[trigger] stored_of(
                cfg,
                min,
                raw,
            )[k].len(),
        forall|k: int|
            0 <= k < stored_of(cfg, min, raw).len() ==> exists|j: int|
                0 <= j < raw.len() && #[trigger] stored_of(cfg, min, raw)[k].len() <= raw[j].len(),
        forall|a: int, b: int|
            0 <= a < b < stored_of(cfg, min, raw).len() ==> stored_of(cfg, min, raw)[a]
                != stored_of(cfg, min, raw)[b],
    decreases raw.len(),
{
    if raw.len() > 0 {
        let pre = raw.drop_last();
        lemma_stored_props(cfg, min, pre);
        lemma_normalized_len(cfg, raw.last());
        let st = stored_of(cfg, min, pre);
        let n = normalized(cfg, raw.last());
        assert forall|k: int|
            0 <= k < stored_of(cfg, min, raw).len() implies exists|j: int|
                0 <= j < raw.len() && #[trigger] stored_of(cfg, min, raw)[k].len()
                    <= raw[j].len() by {
            if k < st.len() {
                let j = choose|j: int| 0 <= j < pre.len() && st[k].len() <= pre[j].len();
                assert(raw[j] == pre[j]);
            } else {
                assert(raw[raw.len() - 1] == raw.last());
            }
        }
        if !(n.len() < min || st.contains(n)) {
            assert forall|a: int, b: int|
                0 <= a < b < st.push(n).len() implies st.push(n)[a] != st.push(n)[b] by {
                if b == st.len() {
                    assert(st[a] == st.push(n)[a]);
                }
            }
            assert(st.push(n).drop_last() =~= st);
        }
    }
}

/// Each pattern read is stored, short or a duplicate, exactly one of the three.
pub proof fn lemma_accounting(cfg: NormalizeConfig, min: nat, raw: Seq<Seq<u8>>)
    ensures
        stored_of(cfg, min, raw).len() + short_of(cfg, min, raw) + duplicates_of(cfg, min, raw)
            == raw.len(),
    decreases raw.len(),
{
    if raw.len() > 0 {
        lemma_accounting(cfg, min, raw.drop_last());
    }
}

/// The smallest stored length is never above the largest.
pub proof fn lemma_smallest_le_largest(ps: Seq<Seq<u8>>)
    ensures
        smallest_len(ps) <= largest_len(ps),
        ps.len() > 0 ==> exists|k: int| 0 <= k < ps.len() && smallest_len(ps) == #[trigger] ps[k].len(),
        forall|k: int| 0 <= k < ps.len() ==> smallest_len(ps) <= #[trigger] ps[k].len() <= largest_len(ps),
    decreases ps.len(),
{
    if ps.len() > 1 {
        let pre = ps.drop_last();
        lemma_smallest_le_largest(pre);
        let k0 = choose|k: int| 0 <= k < pre.len() && smallest_len(pre) == #[trigger] pre[k].len();
        assert(ps[k0] == pre[k0]);
        if ps.last().len() < smallest_len(pre) {
            assert(smallest_len(ps) == ps[ps.len() - 1].len());
        } else {
            assert(smallest_len(ps) == ps[k0].len());
        }
        assert forall|k: int| 0 <= k < ps.len() implies smallest_len(ps) <= #[trigger] ps[k].len() <= largest_len(ps) by {
            if k < pre.len() {
                assert(ps[k] == pre[k]);
            }
        }
    } else if ps.len() == 1 {
        assert(ps.drop_last().len() == 0);
        assert(smallest_len(ps) == ps[0].len());
    }
}

/// The statistics of a compilation account for every pattern read, and the
/// smallest stored length is never above the largest when something is stored.
pub proof fn lemma_stats_invariant(cfg: NormalizeConfig, min: nat, raw: Seq<Seq<u8>>)
    requires
        compilable(raw),
    ensures
        stats_of(cfg, min, raw).stored_pattern_count + stats_of(cfg, min, raw).short_pattern_count
            + stats_of(cfg, min, raw).duplicate_patterns == raw.len(),
        stats_of(cfg, min, raw).stored_pattern_count > 0 ==> stats_of(
            cfg,
            min,
            raw,
        ).smallest_pattern_length <= stats_of(cfg, min, raw).largest_pattern_length,
{
    let st = stored_of(cfg, min, raw);
    lemma_accounting(cfg, min, raw);
    lemma_stored_props(cfg, min, raw);
    lemma_smallest_le_largest(st);
    if st.len() > 0 {
        let j = choose|j: int| 0 <= j < raw.len() && st[0].len() <= raw[j].len();
        assert(raw[j].len() <= u32::MAX);
        assert(st[0].len() <= largest_len(st));
        lemma_largest_is_some(st);
    }
}

proof fn lemma_largest_is_some(ps: Seq<Seq<u8>>)
    requires
        ps.len() > 0,
    ensures
        exists|k: int| 0 <= k < ps.len() && largest_len(ps) == #[trigger] ps[k].len(),
    decreases ps.len(),
{
    if ps.len() == 1 {
        assert(ps.drop_last().len() == 0);
        assert(largest_len(ps.drop_last()) == 0);
        assert(ps.last() == ps[0]);
        assert(largest_len(ps) == ps[0].len());
    } else {
        let pre = ps.drop_last();
        lemma_largest_is_some(pre);
        let k = choose|k: int| 0 <= k < pre.len() && largest_len(pre) == #[trigger] pre[k].len();
        assert(ps[k] == pre[k]);
        if ps.last().len() > largest_len(pre) {
            assert(largest_len(ps) == ps[ps.len() - 1].len());
        } else {
            assert(largest_len(ps) == ps[k].len());
        }
    }
}

/// Whether two byte sequences are equal.
pub fn bytes_equal(a: &[u8], b: &[u8]) -> (r: bool)
    ensures
        r == (a@ == b@),
{
    if a.len() != b.len() {
        return false;
    }
    let mut i: usize = 0;
    while i < a.len()
        invariant
            a@.len() == b@.len(),
            i <= a@.len(),
            forall|k: int| 0 <= k < i ==> a@[k] == b@[k],
        decreases a@.len() - i,
    {
        if a[i] != b[i] {
            return false;
        }
        i = i + 1;
    }
    proof {
        assert(a@ =~= b@);
    }
    true
}

fn contains_pattern(ps: &Vec<Vec<u8>>, n: &Vec<u8>) -> (r: bool)
    ensures
        r == views(ps@).contains(n@),
{
    let mut i: usize = 0;
    while i < ps.len()
        invariant
            i <= ps@.len(),
            forall|k: int| 0 <= k < i ==> ps@[k]@ != n@,
        decreases ps@.len() - i,
    {
        if bytes_equal(ps[i].as_slice(), n.as_slice()) {
            proof {
                assert(views(ps@)[i as int] == n@);
            }
            return true;
        }
        i = i + 1;
    }
    proof {
        if views(ps@).contains(n@) {
            let k = choose|k: int| 0 <= k < views(ps@).len() && views(ps@)[k] == n@;
            assert(ps@[k]@ == n@);
        }
    }
    false
}

/// Normalizes, classifies and deduplicates `raw` with minimum stored length
/// `min`; returns the stored patterns and the statistics.
pub fn store_patterns(cfg: &NormalizeConfig, min: usize, raw: &Vec<Vec<u8>>) -> (r: (
    Vec<Vec<u8>>,
    CompilerStats,
))
    requires
        compilable(views(raw@)),
    ensures
        views(r.0@) == stored_of(*cfg, min as nat, views(raw@)),
        r.1 == stats_of(*cfg, min as nat, views(raw@)),
{
    let ghost rv = views(raw@);
    let ghost m = min as nat;
    let mut st: Vec<Vec<u8>> = Vec::new();
    let mut input: u64 = 0;
    let mut stored_bytes: u64 = 0;
    let mut short: u32 = 0;
    let mut dups: u32 = 0;
    let mut smallest: u32 = 0;
    let mut largest: u32 = 0;
    let mut i: usize = 0;
    proof {
        assert(rv.take(0) =~= seq![]);
    }
    while i < raw.len()
        invariant
            i <= raw@.len(),
            rv == views(raw@),
            compilable(rv),
            m == min as nat,
            views(st@) == stored_of(*cfg, m, rv.take(i as int)),
            input as nat == total_len(rv.take(i as int)),
            stored_bytes as nat == total_len(stored_of(*cfg, m, rv.take(i as int))),
            short as nat == short_of(*cfg, m, rv.take(i as int)),
            dups as nat == duplicates_of(*cfg, m, rv.take(i as int)),
            smallest as nat == smallest_len(stored_of(*cfg, m, rv.take(i as int))),
            largest as nat == largest_len(stored_of(*cfg, m, rv.take(i as int))),
        decreases raw@.len() - i,
    {
        let ghost pre = rv.take(i as int);
        let ghost cur = rv.take(i + 1);
        proof {
            assert(cur.drop_last() =~= pre);
            assert(cur.last() == raw@[i as int]@);
            lemma_total_len_prefix(rv, i + 1);
            lemma_stored_props(*cfg, m, cur);
            lemma_stored_props(*cfg, m, pre);
            lemma_accounting(*cfg, m, cur);
            lemma_normalized_len(*cfg, cur.last());
            lemma_smallest_le_largest(stored_of(*cfg, m, cur));
        }
        let p = &raw[i];
        assert(p@.len() <= u32::MAX);
        input = input + p.len() as u64;
        let (n, _) = normalize(cfg, p.as_slice());
        if n.len() < min {
            short = short + 1;
        } else if contains_pattern(&st, &n) {
            dups = dups + 1;
        } else {
            let l = n.len() as u32;
            stored_bytes = stored_bytes + n.len() as u64;
            if st.len() == 0 || l < smallest {
                smallest = l;
            }
            if l > largest {
                largest = l;
            }
            proof {
                let s0 = stored_of(*cfg, m, pre);
                assert(s0.push(n@).drop_last() =~= s0);
                assert(views(st@.push(n)) =~= s0.push(n@));
            }
            st.push(n);
        }
        i = i + 1;
    }
    proof {
        assert(rv.take(raw@.len() as int) =~= rv);
    }
    let stats = CompilerStats {
        total_input_bytes: input,
        total_stored_bytes: stored_bytes,
        stored_pattern_count: st.len() as u32,
        short_pattern_count: short,
        duplicate_patterns: dups,
        smallest_pattern_length: smallest,
        largest_pattern_length: largest,
    };
    (st, stats)
}

} // verus!
