//! The scan: at each normalized haystack position, which stored patterns
//! match, which of them the scan switches accept, and where the scan goes on.
use vstd::prelude::*;
use crate::codec::views;
use crate::normalize::{lemma_offsets, normalize, normalized, offsets, valid_offsets, NormalizeConfig};
use crate::stats::MatcherStats;

verus! {

/// The scan switches; each can be combined with the others.
#[derive(Clone, Copy, Debug, PartialEq, Eq, Structural)]
pub struct ScanOptions {
    pub no_overlap: bool,
    pub longest_only: bool,
    pub word_boundary: bool,
    pub word_prefix: bool,
    pub word_suffix: bool,
    pub line_start: bool,
    pub line_end: bool,
}

/// One reported match, in the coordinates of the original haystack.
#[derive(Clone, Copy, Debug, PartialEq, Eq, Structural)]
pub struct MatchResults {
    pub pattern_id: usize,
    pub offset: usize,
    pub length: usize,
}

/// Everything a scan depends on.
pub struct ScanInput {
    pub opts: ScanOptions,
    pub pats: Seq<Seq<u8>>,
    pub hay: Seq<u8>,
    pub norm: Seq<u8>,
    pub offs: Seq<int>,
}

/// The scan of `hay` under normalization `cfg`.
pub open spec fn scan_input(
    cfg: NormalizeConfig,
    opts: ScanOptions,
    pats: Seq<Seq<u8>>,
    hay: Seq<u8>,
) -> ScanInput {
    ScanInput { opts, pats, hay, norm: normalized(cfg, hay), offs: offsets(cfg, hay) }
}

/// ASCII letters, digits and `_`.
pub open spec fn is_word(b: u8) -> bool {
    (48 <= b <= 57) || (65 <= b <= 90) || (97 <= b <= 122) || b == 95
}

/// Whether the original range `start..end` passes the boundary and line switches.
pub open spec fn boundary_ok(opts: ScanOptions, hay: Seq<u8>, start: int, end: int) -> bool {
    &&& (opts.word_boundary || opts.word_prefix) ==> (start == 0 || !is_word(hay[start - 1]))
    &&& (opts.word_boundary || opts.word_suffix) ==> (end == hay.len() || !is_word(hay[end]))
    &&& opts.line_start ==> (start == 0 || hay[start - 1] == 10)
    &&& opts.line_end ==> (end == hay.len() || hay[end] == 10)
}

/// Whether non-empty pattern `k` occurs at normalized position `j`.
pub open spec fn pat_matches(s: ScanInput, j: int, k: int) -> bool {
    &&& 0 <= k < s.pats.len()
    &&& 0 <= j
    &&& s.pats[k].len() > 0
    &&& j + s.pats[k].len() <= s.norm.len()
    &&& s.norm.subrange(j, j + s.pats[k].len()) == s.pats[k]
}

pub open spec fn start_of(s: ScanInput, j: int) -> int {
    s.offs[j]
}

pub open spec fn end_of(s: ScanInput, j: int, k: int) -> int {
    s.offs[j + s.pats[k].len() - 1] + 1
}

/// A match of pattern `k` at `j` that the switches accept.
pub open spec fn candidate(s: ScanInput, j: int, k: int) -> bool {
    pat_matches(s, j, k) && boundary_ok(s.opts, s.hay, start_of(s, j), end_of(s, j, k))
}

pub open spec fn result_of(s: ScanInput, j: int, k: int) -> MatchResults {
    MatchResults {
        pattern_id: k as usize,
        offset: start_of(s, j) as usize,
        length: (end_of(s, j, k) - start_of(s, j)) as usize,
    }
}

/// The accepted matches at `j` among patterns `0..n`, in pattern order.
pub open spec fn all_at(s: ScanInput, j: int, n: nat) -> Seq<MatchResults>
    decreases n,
{
    if n == 0 {
        seq![]
    } else {
        all_at(s, j, (n - 1) as nat) + if candidate(s, j, n - 1) {
            seq![result_of(s, j, n - 1)]
        } else {
            seq![]
        }
    }
}

/// The longest accepted match at `j` among patterns `0..n`; the lowest id on ties.
pub open spec fn best_at(s: ScanInput, j: int, n: nat) -> Option<int>
    decreases n,
{
    if n == 0 {
        None
    } else {
        let b = best_at(s, j, (n - 1) as nat);
        if candidate(s, j, n - 1) && (b is None || s.pats[n - 1].len() > s.pats[b->0].len()) {
            Some(n - 1)
        } else {
            b
        }
    }
}

/// Whether any pattern of `0..n` occurs at `j`, accepted or not.
pub open spec fn any_at(s: ScanInput, j: int, n: nat) -> bool {
    exists|k: int| 0 <= k < n && pat_matches(s, j, k)
}

/// Whether at most one match is reported per position.
pub open spec fn single(opts: ScanOptions) -> bool {
    opts.longest_only || opts.no_overlap
}

/// Where the scan goes on after reporting pattern `k` at `j`.
pub open spec fn next_after(s: ScanInput, j: int, k: int) -> int {
    if s.opts.no_overlap && s.pats[k].len() > 0 && j + s.pats[k].len() <= s.norm.len() {
        j + s.pats[k].len()
    } else {
        j + 1
    }
}

/// The matches reported from normalized position `j` on, for scan
/// positions below `hi`.
pub open spec fn scan_between(s: ScanInput, j: nat, hi: nat) -> Seq<MatchResults>
    decreases s.norm.len() - j,
{
    if j >= hi || j >= s.norm.len() {
        seq![]
    } else if single(s.opts) {
        match best_at(s, j as int, s.pats.len()) {
            Some(k) => seq![result_of(s, j as int, k)] + scan_between(
                s,
                next_after(s, j as int, k) as nat,
                hi,
            ),
            None => scan_between(s, j + 1, hi),
        }
    } else {
        all_at(s, j as int, s.pats.len()) + scan_between(s, j + 1, hi)
    }
}

/// The positions probed from `j` on, below `hi`.
pub open spec fn probes_between(s: ScanInput, j: nat, hi: nat) -> nat
    decreases s.norm.len() - j,
{
    if j >= hi || j >= s.norm.len() {
        0
    } else if single(s.opts) {
        match best_at(s, j as int, s.pats.len()) {
            Some(k) => 1 + probes_between(s, next_after(s, j as int, k) as nat, hi),
            None => 1 + probes_between(s, j + 1, hi),
        }
    } else {
        1 + probes_between(s, j + 1, hi)
    }
}

/// The probed positions from `j` on, below `hi`, at which no pattern occurs.
pub open spec fn misses_between(s: ScanInput, j: nat, hi: nat) -> nat
    decreases s.norm.len() - j,
{
    if j >= hi || j >= s.norm.len() {
        0
    } else {
        let m: nat = if any_at(s, j as int, s.pats.len()) { 0 } else { 1 };
        if single(s.opts) {
            match best_at(s, j as int, s.pats.len()) {
                Some(k) => m + misses_between(s, next_after(s, j as int, k) as nat, hi),
                None => m + misses_between(s, j + 1, hi),
            }
        } else {
            m + misses_between(s, j + 1, hi)
        }
    }
}

/// The matches reported from normalized position `j` to the end.
pub open spec fn scan_from(s: ScanInput, j: nat) -> Seq<MatchResults> {
    scan_between(s, j, s.norm.len())
}

/// The positions probed from `j` to the end.
pub open spec fn probes_from(s: ScanInput, j: nat) -> nat {
    probes_between(s, j, s.norm.len())
}

/// The probed positions from `j` on at which no pattern occurs.
pub open spec fn misses_from(s: ScanInput, j: nat) -> nat {
    misses_between(s, j, s.norm.len())
}

/// Splitting: in overlap mode, scanning the positions `lo..hi` reports what
/// scanning `lo..mid` and then `mid..hi` reports, so that disjoint position
/// ranges can be scanned apart and their results joined in order.
pub proof fn lemma_scan_split(s: ScanInput, lo: nat, mid: nat, hi: nat)
    requires
        !s.opts.no_overlap,
        lo <= mid <= hi,
    ensures
        scan_between(s, lo, hi) == scan_between(s, lo, mid) + scan_between(s, mid, hi),
        probes_between(s, lo, hi) == probes_between(s, lo, mid) + probes_between(s, mid, hi),
        misses_between(s, lo, hi) == misses_between(s, lo, mid) + misses_between(s, mid, hi),
    decreases mid - lo,
{
    if lo < mid && lo < s.norm.len() {
        lemma_scan_split(s, lo + 1, mid, hi);
        if single(s.opts) {
            match best_at(s, lo as int, s.pats.len()) {
                Some(k) => {
                    assert(next_after(s, lo as int, k) == lo + 1);
                    assert(scan_between(s, lo, hi) =~= scan_between(s, lo, mid) + scan_between(
                        s,
                        mid,
                        hi,
                    ));
                },
                None => {},
            }
        } else {
            assert(scan_between(s, lo, hi) =~= scan_between(s, lo, mid) + scan_between(
                s,
                mid,
                hi,
            ));
        }
    } else if lo >= s.norm.len() {
        lemma_between_past_end(s, mid, hi);
    }
}

proof fn lemma_between_past_end(s: ScanInput, j: nat, hi: nat)
    requires
        j >= s.norm.len(),
    ensures
        scan_between(s, j, hi) == Seq::<MatchResults>::empty(),
        probes_between(s, j, hi) == 0,
        misses_between(s, j, hi) == 0,
{
}

/// The matches a scan of `hay` reports.
pub open spec fn scan_results(
    cfg: NormalizeConfig,
    opts: ScanOptions,
    pats: Seq<Seq<u8>>,
    hay: Seq<u8>,
) -> Seq<MatchResults> {
    scan_from(scan_input(cfg, opts, pats, hay), 0)
}

proof fn lemma_best_at(s: ScanInput, j: int, n: nat)
    requires
        n <= s.pats.len(),
    ensures
        match best_at(s, j, n) {
            Some(k) => 0 <= k < n && candidate(s, j, k),
            None => forall|k: int| 0 <= k < n ==> !candidate(s, j, k),
        },
    decreases n,
{
    if n > 0 {
        lemma_best_at(s, j, (n - 1) as nat);
    }
}

fn is_word_byte(b: u8) -> (r: bool)
    ensures
        r == is_word(b),
{
    (48 <= b && b <= 57) || (65 <= b && b <= 90) || (97 <= b && b <= 122) || b == 95
}

fn accepts(opts: &ScanOptions, hay: &[u8], start: usize, end: usize) -> (r: bool)
    requires
        start < end <= hay@.len(),
    ensures
        r == boundary_ok(*opts, hay@, start as int, end as int),
{
    if (opts.word_boundary || opts.word_prefix) && start > 0 && is_word_byte(hay[start - 1]) {
        return false;
    }
    if (opts.word_boundary || opts.word_suffix) && end < hay.len() && is_word_byte(hay[end]) {
        return false;
    }
    if opts.line_start && start > 0 && hay[start - 1] != 10 {
        return false;
    }
    if opts.line_end && end < hay.len() && hay[end] != 10 {
        return false;
    }
    true
}

/// Whether `p` occurs in `norm` at `j`, with the number of byte comparisons made.
fn occurs_at(norm: &[u8], j: usize, p: &[u8]) -> (r: (bool, usize))
    ensures
        r.0 == (j + p@.len() <= norm@.len() && norm@.subrange(j as int, j + p@.len()) == p@),
        r.1 <= p@.len(),
{
    let nl = norm.len();
    if p.len() > nl || j > nl - p.len() {
        return (false, 0);
    }
    let mut i: usize = 0;
    while i < p.len()
        invariant
            nl == norm@.len(),
            j + p@.len() <= nl,
            i <= p@.len(),
            forall|k: int| 0 <= k < i ==> norm@[j + k] == p@[k],
        decreases p@.len() - i,
    {
        if norm[j + i] != p[i] {
            proof {
                assert(norm@.subrange(j as int, j + p@.len())[i as int] != p@[i as int]);
            }
            return (false, i + 1);
        }
        i = i + 1;
    }
    proof {
        assert(norm@.subrange(j as int, j + p@.len()) =~= p@);
    }
    (true, i)
}

/// The ids, in increasing order, of the non-empty patterns among `0..k`
/// whose first byte is `b`.
pub open spec fn bucket(pats: Seq<Seq<u8>>, b: u8, k: nat) -> Seq<usize>
    decreases k,
{
    if k == 0 {
        seq![]
    } else {
        let p = bucket(pats, b, (k - 1) as nat);
        if k - 1 < pats.len() && pats[k - 1].len() > 0 && pats[k - 1][0] == b {
            p.push((k - 1) as usize)
        } else {
            p
        }
    }
}

/// An index of the patterns by first byte: entry `b` is `bucket(pats, b, pats.len())`.
pub open spec fn is_index(index: Seq<Vec<usize>>, pats: Seq<Seq<u8>>) -> bool {
    &&& index.len() == 256
    &&& forall|b: int| 0 <= b < 256 ==> #[trigger] index[b]@ == bucket(pats, b as u8, pats.len())
}

proof fn lemma_bucket(pats: Seq<Seq<u8>>, b: u8, k: nat)
    requires
        k <= pats.len(),
        k <= usize::MAX + 1,
    ensures
        forall|t: int|
            0 <= t < bucket(pats, b, k).len() ==> {
                let q = #[trigger] bucket(pats, b, k)[t] as int;
                &&& q < k
                &&& pats[q].len() > 0
                &&& pats[q][0] == b
            },
        forall|t1: int, t2: int|
            0 <= t1 < t2 < bucket(pats, b, k).len() ==> bucket(pats, b, k)[t1] < bucket(
                pats,
                b,
                k,
            )[t2],
        forall|q: int|
            0 <= q < k && pats[q].len() > 0 && pats[q][0] == b ==> exists|t: int|
                0 <= t < bucket(pats, b, k).len() && #[trigger] bucket(pats, b, k)[t] == q,
    decreases k,
{
    if k > 0 {
        let k1 = (k - 1) as nat;
        lemma_bucket(pats, b, k1);
        let p = bucket(pats, b, k1);
        if pats[k - 1].len() > 0 && pats[k - 1][0] == b {
            let r = p.push((k - 1) as usize);
            assert forall|q: int|
                0 <= q < k && pats[q].len() > 0 && pats[q][0] == b implies exists|t: int|
                    0 <= t < r.len() && #[trigger] r[t] == q by {
                if q < k - 1 {
                    let t = choose|t: int| 0 <= t < p.len() && #[trigger] p[t] == q;
                    assert(r[t] == p[t]);
                } else {
                    assert(r[p.len() as int] == q);
                }
            }
        }
    }
}

/// With no pattern of `a..b` occurring at `j`, the patterns `0..b` decide
/// at `j` what the patterns `0..a` decide.
proof fn lemma_skip(s: ScanInput, j: int, a: nat, b: nat)
    requires
        a <= b,
        forall|q: int| a <= q < b ==> !pat_matches(s, j, q),
    ensures
        all_at(s, j, b) == all_at(s, j, a),
        best_at(s, j, b) == best_at(s, j, a),
        any_at(s, j, b) == any_at(s, j, a),
    decreases b,
{
    if b > a {
        lemma_skip(s, j, a, (b - 1) as nat);
        assert(!candidate(s, j, b - 1));
        assert(all_at(s, j, b) =~= all_at(s, j, (b - 1) as nat));
    }
    if any_at(s, j, b) {
        let q = choose|q: int| 0 <= q < b && pat_matches(s, j, q);
        assert(q < a);
    }
    if any_at(s, j, a) {
        let q = choose|q: int| 0 <= q < a && pat_matches(s, j, q);
        assert(0 <= q < b && pat_matches(s, j, q));
    }
}

/// Groups the ids of the non-empty patterns by their first byte.
pub fn build_index(pats: &Vec<Vec<u8>>) -> (r: Vec<Vec<usize>>)
    ensures
        is_index(r@, views(pats@)),
{
    let ghost vs = views(pats@);
    let mut idx: Vec<Vec<usize>> = Vec::new();
    let mut b: usize = 0;
    while b < 256
        invariant
            b <= 256,
            idx@.len() == b,
            forall|c: int| 0 <= c < b ==> #[trigger] idx@[c]@ == Seq::<usize>::empty(),
        decreases 256 - b,
    {
        idx.push(Vec::new());
        b = b + 1;
    }
    let mut k: usize = 0;
    while k < pats.len()
        invariant
            k <= pats@.len(),
            vs == views(pats@),
            idx@.len() == 256,
            forall|c: int| 0 <= c < 256 ==> #[trigger] idx@[c]@ == bucket(vs, c as u8, k as nat),
        decreases pats@.len() - k,
    {
        let p = &pats[k];
        assert(p@ == vs[k as int]);
        if p.len() > 0 {
            let c = p[0] as usize;
            idx[c].push(k);
        }
        proof {
            assert forall|c: int| 0 <= c < 256 implies #[trigger] idx@[c]@ == bucket(
                vs,
                c as u8,
                (k + 1) as nat,
            ) by {
                assert((c as u8) as int == c);
            }
        }
        k = k + 1;
    }
    proof {
        assert(vs.len() == pats@.len());
    }
    idx
}

/// Scans the positions `lo..hi` of an already normalized haystack: `norm`
/// with its offset map `offs` into the original `hay`, probing at each
/// position only the patterns that `index` files under its byte.
pub fn scan_normalized(
    opts: &ScanOptions,
    pats: &Vec<Vec<u8>>,
    hay: &[u8],
    norm: &[u8],
    offs: &[usize],
    index: &Vec<Vec<usize>>,
    lo: usize,
    hi: usize,
    Ghost(s): Ghost<ScanInput>,
) -> (r: (Vec<MatchResults>, MatcherStats))
    requires
        lo <= hi <= norm@.len(),
        is_index(index@, s.pats),
        s.opts == *opts,
        s.pats == views(pats@),
        s.hay == hay@,
        s.norm == norm@,
        s.offs.len() == norm@.len(),
        forall|k: int| 0 <= k < offs@.len() ==> offs@[k] as int == #[trigger] s.offs[k],
        offs@.len() == norm@.len(),
        valid_offsets(s.offs, hay@.len() as int),
    ensures
        r.0@ == scan_between(s, lo as nat, hi as nat),
        r.1.total_hits == r.0@.len(),
        r.1.total_attempts == probes_between(s, lo as nat, hi as nat),
        r.1.total_misses == misses_between(s, lo as nat, hi as nat),
{
    let mut out: Vec<MatchResults> = Vec::new();
    let mut attempts: usize = 0;
    let mut misses: usize = 0;
    let mut filtered: u64 = 0;
    let mut comparisons: u64 = 0;
    let mut j: usize = lo;
    let n = pats.len();
    let hl = hay.len();
    let nl = norm.len();
    while j < hi
        invariant
            s.opts == *opts,
            s.pats == views(pats@),
            s.hay == hay@,
            s.norm == norm@,
            s.offs.len() == norm@.len(),
            forall|k: int| 0 <= k < offs@.len() ==> offs@[k] as int == #[trigger] s.offs[k],
            offs@.len() == norm@.len(),
            valid_offsets(s.offs, hay@.len() as int),
            n == pats@.len(),
            hl == hay@.len(),
            nl == norm@.len(),
            is_index(index@, s.pats),
            lo <= j <= nl,
            hi <= nl,
            scan_between(s, lo as nat, hi as nat) == out@ + scan_between(s, j as nat, hi as nat),
            probes_between(s, lo as nat, hi as nat) == attempts + probes_between(
                s,
                j as nat,
                hi as nat,
            ),
            misses_between(s, lo as nat, hi as nat) == misses + misses_between(
                s,
                j as nat,
                hi as nat,
            ),
            attempts <= j,
            misses <= attempts,
        decreases norm@.len() - j,
    {
        let ghost before = out@;
        let mut best: Option<usize> = None;
        let mut any = false;
        let ids = &index[norm[j] as usize];
        let ghost first = norm@[j as int];
        proof {
            assert(ids@ == bucket(s.pats, first, s.pats.len()));
            lemma_bucket(s.pats, first, s.pats.len());
        }
        let mut t: usize = 0;
        let mut k: usize = 0;
        while t < ids.len()
            invariant
                ids@ == bucket(s.pats, first, s.pats.len()),
                first == norm@[j as int],
                t <= ids@.len(),
                t == 0 ==> k == 0,
                t > 0 ==> k == ids@[t - 1] + 1,
                forall|u: int|
                    0 <= u < ids@.len() ==> {
                        let q = #[trigger] ids@[u] as int;
                        &&& q < s.pats.len()
                        &&& s.pats[q].len() > 0
                        &&& s.pats[q][0] == first
                    },
                forall|t1: int, t2: int| 0 <= t1 < t2 < ids@.len() ==> ids@[t1] < ids@[t2],
                forall|q: int|
                    0 <= q < s.pats.len() && s.pats[q].len() > 0 && s.pats[q][0] == first
                        ==> exists|u: int| 0 <= u < ids@.len() && #[trigger] ids@[u] == q,
                s.opts == *opts,
                s.pats == views(pats@),
                s.hay == hay@,
                s.norm == norm@,
                s.offs.len() == norm@.len(),
                hl == hay@.len(),
                nl == norm@.len(),
                forall|i: int| 0 <= i < offs@.len() ==> offs@[i] as int == #[trigger] s.offs[i],
                offs@.len() == norm@.len(),
                valid_offsets(s.offs, hay@.len() as int),
                n == pats@.len(),
                j < norm@.len(),
                k <= n,
                single(*opts) ==> out@ == before,
                !single(*opts) ==> out@ == before + all_at(s, j as int, k as nat),
                best == match best_at(s, j as int, k as nat) {
                    Some(b) => Some(b as usize),
                    None => None::<usize>,
                },
                any == any_at(s, j as int, k as nat),
            decreases ids@.len() - t,
        {
            let id = ids[t];
            proof {
                assert forall|q: int| k <= q < id implies !pat_matches(s, j as int, q) by {
                    if pat_matches(s, j as int, q) {
                        assert(s.norm.subrange(j as int, j + s.pats[q].len())[0] == s.pats[q][0]);
                        let u = choose|u: int| 0 <= u < ids@.len() && #[trigger] ids@[u] == q;
                        if u < t {
                            assert(ids@[u] <= ids@[t - 1]);
                        } else if u > t {
                            assert(ids@[t as int] < ids@[u]);
                        }
                    }
                }
                lemma_skip(s, j as int, k as nat, id as nat);
            }
            k = id;
            proof {
                lemma_best_at(s, j as int, k as nat);
            }
            let p = pats[k].as_slice();
            assert(p@ == s.pats[k as int]);
            let (hit, cmps) = occurs_at(norm, j, p);
            comparisons = comparisons.saturating_add(cmps as u64);
            let m = hit && p.len() > 0;
            proof {
                assert(m == pat_matches(s, j as int, k as int));
            }
            if m {
                any = true;
                assert(j + p@.len() <= norm@.len());
                let last = j + p.len() - 1;
                proof {
                    assert(s.offs[last as int] < hl);
                    if p@.len() > 1 {
                        assert(s.offs[j as int] < s.offs[last as int]);
                    }
                }
                let start = offs[j];
                let end = offs[last] + 1;
                if accepts(opts, hay, start, end) {
                    let r = MatchResults { pattern_id: k, offset: start, length: end - start };
                    let replace = match best {
                        None => true,
                        Some(b) => p.len() > pats[b].len(),
                    };
                    if opts.longest_only || opts.no_overlap {
                        if replace {
                            match best {
                                Some(_) => {
                                    filtered = filtered.saturating_add(1);
                                },
                                None => {},
                            }
                        } else {
                            filtered = filtered.saturating_add(1);
                        }
                    } else {
                        proof {
                            assert(r == result_of(s, j as int, k as int));
                        }
                        out.push(r);
                    }
                    if replace {
                        best = Some(k);
                    }
                } else {
                    filtered = filtered.saturating_add(1);
                }
            }
            proof {
                if !single(*opts) {
                    assert(before + all_at(s, j as int, (k + 1) as nat) =~= out@);
                }
                lemma_best_at(s, j as int, k as nat);
                if any_at(s, j as int, (k + 1) as nat) && !any_at(s, j as int, k as nat) {
                    assert(pat_matches(s, j as int, k as int));
                }
                if any_at(s, j as int, k as nat) {
                    let w = choose|w: int| 0 <= w < k && pat_matches(s, j as int, w);
                    assert(0 <= w < k + 1 && pat_matches(s, j as int, w));
                }
                if m {
                    assert(0 <= k < k + 1 && pat_matches(s, j as int, k as int));
                }
            }
            k = k + 1;
            t = t + 1;
        }
        proof {
            assert forall|q: int| k <= q < n implies !pat_matches(s, j as int, q) by {
                if pat_matches(s, j as int, q) {
                    assert(s.norm.subrange(j as int, j + s.pats[q].len())[0] == s.pats[q][0]);
                    let u = choose|u: int| 0 <= u < ids@.len() && #[trigger] ids@[u] == q;
                    if t > 0 {
                        assert(ids@[u] <= ids@[t - 1]);
                    }
                }
            }
            lemma_skip(s, j as int, k as nat, n as nat);
        }
        attempts = attempts + 1;
        if !any {
            misses = misses + 1;
        }
        proof {
            lemma_best_at(s, j as int, n as nat);
        }
        if opts.longest_only || opts.no_overlap {
            match best {
                Some(b) => {
                    let p = pats[b].as_slice();
                    proof {
                        assert(p@ == s.pats[b as int]);
                        assert(candidate(s, j as int, b as int));
                    }
                    let last = j + p.len() - 1;
                    proof {
                        assert(s.offs[last as int] < hl);
                        if p@.len() > 1 {
                            assert(s.offs[j as int] < s.offs[last as int]);
                        }
                    }
                    let start = offs[j];
                    let end = offs[last] + 1;
                    let r = MatchResults { pattern_id: b, offset: start, length: end - start };
                    proof {
                        assert(r == result_of(s, j as int, b as int));
                        assert(out@.push(r) + scan_between(
                            s,
                            next_after(s, j as int, b as int) as nat,
                            hi as nat,
                        ) =~= out@ + (seq![r] + scan_between(
                            s,
                            next_after(s, j as int, b as int) as nat,
                            hi as nat,
                        )));
                    }
                    out.push(r);
                    if opts.no_overlap {
                        j = j + p.len();
                    } else {
                        j = j + 1;
                    }
                },
                None => {
                    j = j + 1;
                },
            }
        } else {
            proof {
                assert(out@ + scan_between(s, (j + 1) as nat, hi as nat) =~= before + (all_at(
                    s,
                    j as int,
                    n as nat,
                ) + scan_between(s, (j + 1) as nat, hi as nat)));
            }
            j = j + 1;
        }
    }
    proof {
        assert(out@ + scan_between(s, j as nat, hi as nat) =~= out@);
    }
    let stats = MatcherStats {
        total_hits: out.len() as u64,
        total_misses: misses as u64,
        total_filtered: filtered,
        total_attempts: attempts as u64,
        total_comparisons: comparisons,
    };
    (out, stats)
}

/// Normalizes `hay` with `cfg` and scans it for the patterns `pats`.
pub fn scan_haystack(
    cfg: &NormalizeConfig,
    opts: &ScanOptions,
    pats: &Vec<Vec<u8>>,
    hay: &[u8],
) -> (r: (Vec<MatchResults>, MatcherStats))
    ensures
        r.0@ == scan_results(*cfg, *opts, views(pats@), hay@),
        r.1.total_hits == r.0@.len(),
        r.1.total_attempts == probes_from(scan_input(*cfg, *opts, views(pats@), hay@), 0),
        r.1.total_misses == misses_from(scan_input(*cfg, *opts, views(pats@), hay@), 0),
{
    let (norm, offs) = normalize(cfg, hay);
    let ghost s = scan_input(*cfg, *opts, views(pats@), hay@);
    proof {
        lemma_offsets(*cfg, hay@);
    }
    let index = build_index(pats);
    scan_normalized(opts, pats, hay, norm.as_slice(), offs.as_slice(), &index, 0, norm.len(), Ghost(s))
}

} // verus!

verus! {

/// Scans the normalized positions `lo..hi` of a haystack prepared by
/// `normalize` and `build_index`; disjoint ranges can be scanned apart.
pub fn scan_segment(
    cfg: &NormalizeConfig,
    opts: &ScanOptions,
    pats: &Vec<Vec<u8>>,
    hay: &[u8],
    norm: &Vec<u8>,
    offs: &Vec<usize>,
    index: &Vec<Vec<usize>>,
    lo: usize,
    hi: usize,
) -> (r: (Vec<MatchResults>, MatcherStats))
    requires
        norm@ == normalized(*cfg, hay@),
        offs@.len() == norm@.len(),
        forall|k: int| 0 <= k < offs@.len() ==> offs@[k] as int == #[trigger] offsets(*cfg, hay@)[k],
        is_index(index@, views(pats@)),
        lo <= hi <= norm@.len(),
    ensures
        r.0@ == scan_between(scan_input(*cfg, *opts, views(pats@), hay@), lo as nat, hi as nat),
        r.1.total_hits == r.0@.len(),
        r.1.total_attempts == probes_between(
            scan_input(*cfg, *opts, views(pats@), hay@),
            lo as nat,
            hi as nat,
        ),
        r.1.total_misses == misses_between(
            scan_input(*cfg, *opts, views(pats@), hay@),
            lo as nat,
            hi as nat,
        ),
{
    let ghost s = scan_input(*cfg, *opts, views(pats@), hay@);
    proof {
        lemma_offsets(*cfg, hay@);
    }
    scan_normalized(opts, pats, hay, norm.as_slice(), offs.as_slice(), index, lo, hi, Ghost(s))
}

/// Segment bounds: starts at 0, ends at `len`, never decreases.
pub open spec fn is_partition(b: Seq<usize>, len: nat) -> bool {
    &&& b.len() >= 2
    &&& b[0] == 0
    &&& b.last() == len
    &&& forall|i: int| 0 <= i < b.len() - 1 ==> #[trigger] b[i] <= b[i + 1]
}

/// The matches of the segments `b[i]..b[i + 1]`, joined in order.
pub open spec fn joined_segments(s: ScanInput, b: Seq<usize>) -> Seq<MatchResults>
    decreases b.len(),
{
    if b.len() < 2 {
        seq![]
    } else {
        joined_segments(s, b.drop_last()) + scan_between(
            s,
            b[b.len() - 2] as nat,
            b.last() as nat,
        )
    }
}

proof fn lemma_join_from(s: ScanInput, b: Seq<usize>)
    requires
        !s.opts.no_overlap,
        b.len() >= 1,
        forall|i: int| 0 <= i < b.len() - 1 ==> #[trigger] b[i] <= b[i + 1],
    ensures
        joined_segments(s, b) == scan_between(s, b[0] as nat, b.last() as nat),
        b[0] <= b.last(),
    decreases b.len(),
{
    if b.len() == 1 {
        assert(scan_between(s, b[0] as nat, b[0] as nat) =~= Seq::<MatchResults>::empty());
    } else {
        let c = b.drop_last();
        assert forall|i: int| 0 <= i < c.len() - 1 implies #[trigger] c[i] <= c[i + 1] by {
            assert(b[i] <= b[i + 1]);
        }
        lemma_join_from(s, c);
        assert(b[b.len() - 2] <= b[b.len() - 1]);
        lemma_scan_split(s, b[0] as nat, b[b.len() - 2] as nat, b.last() as nat);
    }
}

/// Scanning the segments of a partition of the normalized haystack one by
/// one and joining their matches in order gives the matches of one scan of
/// the whole haystack, in overlap mode.
pub proof fn lemma_segments_join(s: ScanInput, b: Seq<usize>)
    requires
        !s.opts.no_overlap,
        is_partition(b, s.norm.len()),
    ensures
        joined_segments(s, b) == scan_from(s, 0),
{
    lemma_join_from(s, b);
}

/// The bounds of segments of `chunk` positions covering `0..len`; the last
/// may be shorter.
pub fn chunk_bounds(len: usize, chunk: usize) -> (r: Vec<usize>)
    requires
        chunk > 0,
    ensures
        is_partition(r@, len as nat),
        forall|i: int| 0 <= i < r@.len() - 1 ==> #[trigger] r@[i + 1] - r@[i] <= chunk,
        forall|i: int| 0 <= i < r@.len() - 2 ==> #[trigger] r@[i + 1] - r@[i] == chunk,
{
    let mut r: Vec<usize> = Vec::new();
    r.push(0);
    let mut at: usize = 0;
    loop
        invariant
            r@.len() >= 1,
            r@[0] == 0,
            r@.last() == at,
            at <= len,
            chunk > 0,
            forall|i: int| 0 <= i < r@.len() - 1 ==> #[trigger] r@[i + 1] - r@[i] == chunk,
        decreases len - at,
    {
        if len - at <= chunk {
            r.push(len);
            proof {
                assert forall|i: int| 0 <= i < r@.len() - 1 implies #[trigger] r@[i] <= r@[i + 1] by {
                    if i < r@.len() - 2 {
                        assert(r@[i + 1] - r@[i] == chunk);
                    }
                }
                assert forall|i: int| 0 <= i < r@.len() - 1 implies #[trigger] r@[i + 1] - r@[i] <= chunk by {
                    if i < r@.len() - 2 {
                        assert(r@[i + 1] - r@[i] == chunk);
                    }
                }
            }
            return r;
        }
        at = at + chunk;
        r.push(at);
    }
}

/// The segment length that spreads `len` positions over `parts` segments,
/// at least 1.
pub fn chunk_size_for(len: usize, parts: usize) -> (r: usize)
    ensures
        r >= 1,
        parts == 0 ==> r == if len == 0 { 1 } else { len },
        parts > 0 ==> r == if len / parts + (if len % parts != 0 { 1int } else { 0int }) == 0 {
            1
        } else {
            len / parts + (if len % parts != 0 { 1int } else { 0int })
        },
{
    if parts == 0 {
        return if len == 0 { 1 } else { len };
    }
    if len % parts != 0 {
        assert(parts >= 2);
        assert(len / parts < len) by (nonlinear_arith)
            requires
                parts >= 2,
                len % parts != 0,
        ;
    }
    let q = len / parts + if len % parts != 0 { 1 } else { 0 };
    if q == 0 { 1 } else { q }
}

} // verus!
