//! The matcher: a loaded match file, the scan switches it was opened with,
//! and the counters of its scans.
use vstd::prelude::*;
use crate::codec::{
    decode, decoded, header_of, parse_patterns, read_u32, views, DecodeError, MatchFileHeader,
    HEADER_LEN,
};
use crate::params::{options_of, switch_on, MatchParams, MatchParamsType};
use crate::scan::{
    misses_from, probes_from, scan_haystack, scan_input, scan_results, MatchResults, ScanOptions,
};
use crate::stats::{sat, MatchPatternStats, MatcherStats};
use crate::store::{largest_len, smallest_len, total_len};

verus! {

/// Why a matcher could not be opened.
#[derive(Clone, Copy, Debug, PartialEq, Eq, Structural)]
pub enum MatchError {
    /// The match file or the haystack could not be read.
    IO,
    /// The match file is not one this version reads.
    FormatMismatch(DecodeError),
    /// The requested normalization differs from the one the file was compiled with.
    ConfigConflict,
}

/// The matches of one scan.
pub struct MatcherResults {
    pub results: Vec<MatchResults>,
}

impl MatcherResults {
    pub fn count(&self) -> (r: usize)
        ensures
            r == self.results@.len(),
    {
        self.results.len()
    }
}

/// Whether the parameters ask for the normalization recorded in `h`.
pub open spec fn flags_agree(h: MatchFileHeader, p: Seq<Option<usize>>) -> bool {
    &&& switch_on(p, MatchParamsType::IgnoreCase) == h.flags.case_insensitive
    &&& switch_on(p, MatchParamsType::ElideWhitespace) == h.flags.elide_whitespace
}

/// The pattern accounting a match file itself can give.
pub open spec fn pattern_stats_of(ps: Seq<Seq<u8>>) -> MatchPatternStats {
    MatchPatternStats {
        total_input_bytes: 0,
        total_stored_bytes: total_len(ps) as u64,
        stored_pattern_count: ps.len() as u32,
        short_pattern_count: 0,
        duplicate_patterns: 0,
        smallest_pattern_length: smallest_len(ps) as u32,
        largest_pattern_length: largest_len(ps) as u32,
    }
}

/// A loaded match file ready to scan haystacks.
pub struct Matcher {
    pub header: MatchFileHeader,
    pub patterns: Vec<Vec<u8>>,
    pub options: ScanOptions,
    pub pattern_stats: MatchPatternStats,
    pub matcher_stats: MatcherStats,
}

fn summarize(ps: &Vec<Vec<u8>>) -> (r: MatchPatternStats)
    requires
        ps@.len() <= u32::MAX,
        forall|k: int| 0 <= k < ps@.len() ==> #[trigger] ps@[k]@.len() <= u32::MAX,
        total_len(views(ps@)) <= u64::MAX,
    ensures
        r == pattern_stats_of(views(ps@)),
{
    let ghost vs = views(ps@);
    let mut stored: u64 = 0;
    let mut smallest: u32 = 0;
    let mut largest: u32 = 0;
    let mut i: usize = 0;
    while i < ps.len()
        invariant
            i <= ps@.len(),
            vs == views(ps@),
            forall|k: int| 0 <= k < ps@.len() ==> #[trigger] ps@[k]@.len() <= u32::MAX,
            total_len(vs) <= u64::MAX,
            stored as nat == total_len(vs.take(i as int)),
            smallest as nat == smallest_len(vs.take(i as int)),
            largest as nat == largest_len(vs.take(i as int)),
        decreases ps@.len() - i,
    {
        proof {
            assert(vs.take(i + 1).drop_last() =~= vs.take(i as int));
            crate::store::lemma_total_len_prefix(vs, i + 1);
        }
        let l = ps[i].len();
        stored = stored + l as u64;
        if i == 0 || (l as u32) < smallest {
            smallest = l as u32;
        }
        if l as u32 > largest {
            largest = l as u32;
        }
        i = i + 1;
    }
    proof {
        assert(vs.take(ps@.len() as int) =~= vs);
    }
    MatchPatternStats {
        total_input_bytes: 0,
        total_stored_bytes: stored,
        stored_pattern_count: ps.len() as u32,
        short_pattern_count: 0,
        duplicate_patterns: 0,
        smallest_pattern_length: smallest,
        largest_pattern_length: largest,
    }
}

impl Matcher {
    /// Loads the match file `bytes` for scans under `params`.
    pub fn load(bytes: &[u8], params: &MatchParams) -> (r: Result<Matcher, MatchError>)
        requires
            params.wf(),
        ensures
            match decoded(bytes@) {
                Err(e) => r == Err::<Matcher, MatchError>(MatchError::FormatMismatch(e)),
                Ok((h, ps)) => if flags_agree(h, params@) {
                    r is Ok && r->Ok_0.header == h && views(r->Ok_0.patterns@) == ps
                        && r->Ok_0.options == options_of(params@) && r->Ok_0.pattern_stats
                        == pattern_stats_of(ps) && r->Ok_0.matcher_stats == MatcherStats::zeroed()
                } else {
                    r == Err::<Matcher, MatchError>(MatchError::ConfigConflict)
                },
            },
    {
        match decode(bytes) {
            Err(e) => Err(MatchError::FormatMismatch(e)),
            Ok((h, ps)) => {
                let blen = bytes.len();
                if params.is_on(MatchParamsType::IgnoreCase) != h.flags.case_insensitive
                    || params.is_on(MatchParamsType::ElideWhitespace) != h.flags.elide_whitespace {
                    return Err(MatchError::ConfigConflict);
                }
                proof {
                    lemma_decoded_bounds(bytes@);
                    assert(total_len(views(ps@)) <= blen);
                    assert forall|k: int| 0 <= k < ps@.len() implies #[trigger] ps@[k]@.len()
                        <= u32::MAX by {
                        assert(views(ps@)[k] == ps@[k]@);
                    }
                }
                let pattern_stats = summarize(&ps);
                Ok(
                    Matcher {
                        header: h,
                        patterns: ps,
                        options: params.scan_options(),
                        pattern_stats,
                        matcher_stats: MatcherStats::new(),
                    },
                )
            },
        }
    }

    /// Scans `hay` and adds the scan's counters to `matcher_stats`.
    pub fn scan(&mut self, hay: &[u8]) -> (r: MatcherResults)
        ensures
            r.results@ == scan_results(
                old(self).header.flags,
                old(self).options,
                views(old(self).patterns@),
                hay@,
            ),
            final(self).header == old(self).header,
            final(self).patterns == old(self).patterns,
            final(self).options == old(self).options,
            final(self).pattern_stats == old(self).pattern_stats,
            final(self).matcher_stats.total_hits == sat(
                old(self).matcher_stats.total_hits,
                r.results@.len() as u64,
            ),
            final(self).matcher_stats.total_attempts == sat(
                old(self).matcher_stats.total_attempts,
                probes_from(
                    scan_input(
                        old(self).header.flags,
                        old(self).options,
                        views(old(self).patterns@),
                        hay@,
                    ),
                    0,
                ) as u64,
            ),
            final(self).matcher_stats.total_misses == sat(
                old(self).matcher_stats.total_misses,
                misses_from(
                    scan_input(
                        old(self).header.flags,
                        old(self).options,
                        views(old(self).patterns@),
                        hay@,
                    ),
                    0,
                ) as u64,
            ),
    {
        let (results, stats) = scan_haystack(&self.header.flags, &self.options, &self.patterns, hay);
        self.matcher_stats = self.matcher_stats.add(&stats);
        MatcherResults { results }
    }
}

/// A decoded match file holds fewer than 2^32 patterns, each under 2^32
/// bytes, together no longer than the file.
proof fn lemma_decoded_bounds(s: Seq<u8>)
    requires
        decoded(s) is Ok,
    ensures
        decoded(s)->Ok_0.1.len() <= u32::MAX,
        forall|k: int|
            0 <= k < decoded(s)->Ok_0.1.len() ==> #[trigger] decoded(s)->Ok_0.1[k].len()
                <= u32::MAX,
        total_len(decoded(s)->Ok_0.1) <= s.len(),
{
    let h = header_of(s);
    lemma_parse_bounds(s, HEADER_LEN as int, h.pattern_count as nat);
}

proof fn lemma_total_len_prepend(x: Seq<u8>, r: Seq<Seq<u8>>)
    ensures
        total_len(seq![x] + r) == x.len() + total_len(r),
    decreases r.len(),
{
    let xs = seq![x] + r;
    if r.len() == 0 {
        assert(xs =~= seq![x]);
        assert(xs.drop_last() =~= Seq::<Seq<u8>>::empty());
        assert(total_len(xs.drop_last()) == 0);
        assert(xs.last() == x);
        assert(total_len(xs) == total_len(xs.drop_last()) + xs.last().len());
    } else {
        assert(xs.drop_last() =~= seq![x] + r.drop_last());
        assert(xs.last() == r.last());
        lemma_total_len_prepend(x, r.drop_last());
        assert(total_len(xs) == total_len(xs.drop_last()) + xs.last().len());
        assert(total_len(r) == total_len(r.drop_last()) + r.last().len());
    }
}

proof fn lemma_parse_bounds(s: Seq<u8>, pos: int, n: nat)
    requires
        0 <= pos <= s.len(),
        parse_patterns(s, pos, n) is Ok,
    ensures
        parse_patterns(s, pos, n)->Ok_0.len() == n,
        forall|k: int|
            0 <= k < parse_patterns(s, pos, n)->Ok_0.len() ==> #[trigger] parse_patterns(
                s,
                pos,
                n,
            )->Ok_0[k].len() <= u32::MAX,
        total_len(parse_patterns(s, pos, n)->Ok_0) <= s.len() - pos,
    decreases n,
{
    if n > 0 {
        let l = read_u32(s, pos);
        let next = pos + 4 + l;
        let x = s.subrange(pos + 4, next);
        lemma_parse_bounds(s, next, (n - 1) as nat);
        let r = parse_patterns(s, next, (n - 1) as nat)->Ok_0;
        lemma_total_len_prepend(x, r);
        assert(l <= u32::MAX);
        assert forall|k: int| 0 <= k < (seq![x] + r).len() implies #[trigger] (seq![x] + r)[k].len()
            <= u32::MAX by {
            if k > 0 {
                assert((seq![x] + r)[k] == r[k - 1]);
            }
        }
    } else {
        assert(total_len(Seq::<Seq<u8>>::empty()) == 0);
    }
}

} // verus!
