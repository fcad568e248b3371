//! Every occurrence of a stored pattern is reported by a plain scan.
use vstd::prelude::*;
use crate::compiler::plain_config;
use crate::normalize::{lemma_normalize_plain, normalized, NormalizeConfig};
use crate::scan::{
    all_at, candidate, pat_matches, result_of, scan_from, scan_input, scan_results, single,
    MatchResults, ScanInput, ScanOptions,
};
use crate::store::{lemma_stored_props, stored_of, MIN_PATTERN_LENGTH};

verus! {

/// Overlap mode with no other switch.
pub open spec fn plain_scan() -> ScanOptions {
    ScanOptions {
        no_overlap: false,
        longest_only: false,
        word_boundary: false,
        word_prefix: false,
        word_suffix: false,
        line_start: false,
        line_end: false,
    }
}

proof fn lemma_stored_contains(cfg: NormalizeConfig, min: nat, raw: Seq<Seq<u8>>, i: int)
    requires
        0 <= i < raw.len(),
        normalized(cfg, raw[i]).len() >= min,
    ensures
        stored_of(cfg, min, raw).contains(normalized(cfg, raw[i])),
    decreases raw.len(),
{
    let pre = raw.drop_last();
    let st = stored_of(cfg, min, pre);
    if i < raw.len() - 1 {
        assert(pre[i] == raw[i]);
        lemma_stored_contains(cfg, min, pre, i);
        let w = choose|w: int| 0 <= w < st.len() && st[w] == normalized(cfg, raw[i]);
        if !st.contains(normalized(cfg, raw.last())) && normalized(cfg, raw.last()).len() >= min {
            assert(st.push(normalized(cfg, raw.last()))[w] == st[w]);
        }
    } else {
        let n = normalized(cfg, raw.last());
        if !st.contains(n) {
            assert(st.push(n)[st.len() as int] == n);
        }
    }
}

proof fn lemma_all_at_contains(s: ScanInput, j: int, n: nat, k: int)
    requires
        0 <= k < n,
        candidate(s, j, k),
    ensures
        all_at(s, j, n).contains(result_of(s, j, k)),
    decreases n,
{
    let prev = all_at(s, j, (n - 1) as nat);
    if k < n - 1 {
        lemma_all_at_contains(s, j, (n - 1) as nat, k);
        let w = choose|w: int| 0 <= w < prev.len() && prev[w] == result_of(s, j, k);
        assert(all_at(s, j, n)[w] == prev[w]);
    } else {
        assert(all_at(s, j, n)[prev.len() as int] == result_of(s, j, k));
    }
}

proof fn lemma_scan_from_contains(s: ScanInput, i: nat, j: nat, x: MatchResults)
    requires
        !single(s.opts),
        i <= j < s.norm.len(),
        all_at(s, j as int, s.pats.len()).contains(x),
    ensures
        scan_from(s, i).contains(x),
    decreases j - i,
{
    let here = all_at(s, i as int, s.pats.len());
    if i == j {
        let w = choose|w: int| 0 <= w < here.len() && here[w] == x;
        assert(scan_from(s, i)[w] == here[w]);
    } else {
        lemma_scan_from_contains(s, i + 1, j, x);
        let rest = scan_from(s, i + 1);
        let w = choose|w: int| 0 <= w < rest.len() && rest[w] == x;
        assert(scan_from(s, i)[here.len() + w] == rest[w]);
    }
}

/// Recall: with no normalization and a plain overlap-mode scan, each
/// occurrence in `hay` of a pattern of `raw` that is long enough to be
/// stored is reported, at its offset, with its length, under the id of an
/// equal stored pattern. Both lists are no longer than memory allows.
pub proof fn lemma_recall(raw: Seq<Seq<u8>>, hay: Seq<u8>, i: int, j: int)
    requires
        0 <= i < raw.len(),
        raw[i].len() >= MIN_PATTERN_LENGTH,
        raw.len() <= usize::MAX,
        hay.len() <= usize::MAX,
        0 <= j,
        j + raw[i].len() <= hay.len(),
        hay.subrange(j, j + raw[i].len()) == raw[i],
    ensures
        exists|r: int|
            0 <= r < scan_results(
                plain_config(),
                plain_scan(),
                stored_of(plain_config(), MIN_PATTERN_LENGTH as nat, raw),
                hay,
            ).len() && {
                let m = #[trigger] scan_results(
                    plain_config(),
                    plain_scan(),
                    stored_of(plain_config(), MIN_PATTERN_LENGTH as nat, raw),
                    hay,
                )[r];
                &&& m.offset == j
                &&& m.length == raw[i].len()
                &&& stored_of(plain_config(), MIN_PATTERN_LENGTH as nat, raw)[m.pattern_id as int]
                    == raw[i]
            },
{
    let cfg = plain_config();
    let st = stored_of(cfg, MIN_PATTERN_LENGTH as nat, raw);
    let p = raw[i];
    lemma_normalize_plain(cfg, p);
    lemma_normalize_plain(cfg, hay);
    lemma_stored_contains(cfg, MIN_PATTERN_LENGTH as nat, raw, i);
    lemma_stored_props(cfg, MIN_PATTERN_LENGTH as nat, raw);
    let k = choose|k: int| 0 <= k < st.len() && st[k] == p;
    let s = scan_input(cfg, plain_scan(), st, hay);
    assert(pat_matches(s, j, k));
    assert(candidate(s, j, k));
    lemma_all_at_contains(s, j, st.len(), k);
    let x = result_of(s, j, k);
    lemma_scan_from_contains(s, 0, j as nat, x);
    let res = scan_results(cfg, plain_scan(), st, hay);
    let r = choose|r: int| 0 <= r < res.len() && res[r] == x;
    assert(s.offs[j] == j);
    assert(s.offs[j + p.len() - 1] == j + p.len() - 1);
    assert(x.offset == j);
    assert(x.length == p.len());
    assert(st[x.pattern_id as int] == p);
}

} // verus!
