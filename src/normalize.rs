//! Byte normalization shared by pattern compilation and haystack scanning.
use vstd::prelude::*;

verus! {

/// The three independent normalization switches.
#[derive(Clone, Copy, Debug, PartialEq, Eq, Structural)]
pub struct NormalizeConfig {
    pub case_insensitive: bool,
    pub ignore_punctuation: bool,
    pub elide_whitespace: bool,
}

/// ASCII punctuation: `!` to `/`, `:` to `@`, `[` to `` ` ``, `{` to `~`.
pub open spec fn is_punct(b: u8) -> bool {
    (33 <= b <= 47) || (58 <= b <= 64) || (91 <= b <= 96) || (123 <= b <= 126)
}

/// ASCII whitespace: space, tab, line feed, vertical tab, form feed, carriage return.
pub open spec fn is_space(b: u8) -> bool {
    b == 32 || (9 <= b <= 13)
}

/// Whether the byte is dropped by the configuration.
pub open spec fn elided(cfg: NormalizeConfig, b: u8) -> bool {
    (cfg.ignore_punctuation && is_punct(b)) || (cfg.elide_whitespace && is_space(b))
}

/// The byte as it stands after case folding.
pub open spec fn folded(cfg: NormalizeConfig, b: u8) -> u8 {
    if cfg.case_insensitive && 65 <= b <= 90 {
        (b + 32) as u8
    } else {
        b
    }
}

/// The normalized form of `s`: elided bytes dropped, the others folded.
pub open spec fn normalized(cfg: NormalizeConfig, s: Seq<u8>) -> Seq<u8>
    decreases s.len(),
{
    if s.len() == 0 {
        seq![]
    } else {
        let p = normalized(cfg, s.drop_last());
        if elided(cfg, s.last()) {
            p
        } else {
            p.push(folded(cfg, s.last()))
        }
    }
}

/// For each byte of `normalized(cfg, s)`, the index in `s` it came from.
pub open spec fn offsets(cfg: NormalizeConfig, s: Seq<u8>) -> Seq<int>
    decreases s.len(),
{
    if s.len() == 0 {
        seq![]
    } else {
        let p = offsets(cfg, s.drop_last());
        if elided(cfg, s.last()) {
            p
        } else {
            p.push(s.len() - 1)
        }
    }
}

/// An offset map into a sequence of length `n`: in range and strictly increasing.
pub open spec fn valid_offsets(o: Seq<int>, n: int) -> bool {
    &&& forall|k: int| 0 <= k < o.len() ==> 0 <= #[trigger] o[k] < n
    &&& forall|a: int, b: int| 0 <= a < b < o.len() ==> o[a] < o[b]
}

/// The offset map has one entry per normalized byte, points into `s` in
/// increasing order, and each normalized byte is the folded byte it points to.
pub proof fn lemma_offsets(cfg: NormalizeConfig, s: Seq<u8>)
    ensures
        offsets(cfg, s).len() == normalized(cfg, s).len(),
        valid_offsets(offsets(cfg, s), s.len() as int),
        forall|k: int|
            0 <= k < offsets(cfg, s).len() ==> #[trigger] normalized(cfg, s)[k] == folded(
                cfg,
                s[offsets(cfg, s)[k]],
            ),
    decreases s.len(),
{
    if s.len() > 0 {
        lemma_offsets(cfg, s.drop_last());
    }
}

/// Normalizing an already normalized sequence changes nothing.
pub proof fn lemma_normalize_idempotent(cfg: NormalizeConfig, s: Seq<u8>)
    ensures
        normalized(cfg, normalized(cfg, s)) == normalized(cfg, s),
    decreases s.len(),
{
    if s.len() > 0 {
        let p = normalized(cfg, s.drop_last());
        lemma_normalize_idempotent(cfg, s.drop_last());
        if !elided(cfg, s.last()) {
            let x = folded(cfg, s.last());
            assert(p.push(x).drop_last() =~= p);
        }
    }
}

/// With every switch off, normalization is the identity.
pub proof fn lemma_normalize_plain(cfg: NormalizeConfig, s: Seq<u8>)
    requires
        !cfg.case_insensitive,
        !cfg.ignore_punctuation,
        !cfg.elide_whitespace,
    ensures
        normalized(cfg, s) == s,
        offsets(cfg, s) == Seq::new(s.len(), |k: int| k),
    decreases s.len(),
{
    if s.len() > 0 {
        lemma_normalize_plain(cfg, s.drop_last());
        assert(s.drop_last().push(s.last()) =~= s);
        assert(Seq::new(s.drop_last().len(), |k: int| k).push(s.len() - 1) =~= Seq::new(
            s.len(),
            |k: int| k,
        ));
    }
}

/// Applies `cfg` to one byte's case.
pub fn fold_byte(cfg: &NormalizeConfig, b: u8) -> (r: u8)
    ensures
        r == folded(*cfg, b),
{
    if cfg.case_insensitive && 65 <= b && b <= 90 {
        b + 32
    } else {
        b
    }
}

/// Whether `cfg` drops the byte.
pub fn is_elided(cfg: &NormalizeConfig, b: u8) -> (r: bool)
    ensures
        r == elided(*cfg, b),
{
    let punct = (33 <= b && b <= 47) || (58 <= b && b <= 64) || (91 <= b && b <= 96) || (123
        <= b && b <= 126);
    let space = b == 32 || (9 <= b && b <= 13);
    (cfg.ignore_punctuation && punct) || (cfg.elide_whitespace && space)
}

/// Normalizes `s` and returns the normalized bytes with, for each of them,
/// the index in `s` it came from.
pub fn normalize(cfg: &NormalizeConfig, s: &[u8]) -> (r: (Vec<u8>, Vec<usize>))
    ensures
        r.0@ == normalized(*cfg, s@),
        r.1@.len() == r.0@.len(),
        forall|k: int| 0 <= k < r.1@.len() ==> r.1@[k] as int == #[trigger] offsets(*cfg, s@)[k],
{
    let mut out: Vec<u8> = Vec::new();
    let mut map: Vec<usize> = Vec::new();
    let mut i: usize = 0;
    while i < s.len()
        invariant
            i <= s@.len(),
            out@ == normalized(*cfg, s@.subrange(0, i as int)),
            map@.len() == out@.len(),
            offsets(*cfg, s@.subrange(0, i as int)).len() == out@.len(),
            forall|k: int|
                0 <= k < map@.len() ==> map@[k] as int == #[trigger] offsets(
                    *cfg,
                    s@.subrange(0, i as int),
                )[k],
        decreases s@.len() - i,
    {
        proof {
            assert(s@.subrange(0, i + 1).drop_last() =~= s@.subrange(0, i as int));
        }
        let b = s[i];
        if !is_elided(cfg, b) {
            out.push(fold_byte(cfg, b));
            map.push(i);
        }
        i = i + 1;
    }
    proof {
        assert(s@.subrange(0, s@.len() as int) =~= s@);
    }
    (out, map)
}

} // verus!
