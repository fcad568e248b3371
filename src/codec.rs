//! The match file: a versioned header followed by the stored patterns.
//!
//! Layout: the magic bytes `OLMF`, the format version as a little-endian
//! `u16`, one byte of normalization flags (bit 0 case-insensitive, bit 1
//! ignore-punctuation, bit 2 elide-whitespace), the pattern count as a
//! little-endian `u32`, then for each pattern its length as a little-endian
//! `u32` followed by its bytes. Nothing may follow the last pattern.
use vstd::prelude::*;
use crate::normalize::NormalizeConfig;

verus! {

pub const FORMAT_VERSION: u16 = 1;

pub const HEADER_LEN: usize = 11;

/// What the header of a match file records.
#[derive(Clone, Copy, Debug, PartialEq, Eq, Structural)]
pub struct MatchFileHeader {
    pub version: u16,
    pub flags: NormalizeConfig,
    pub pattern_count: u32,
}

/// Why a byte sequence is not a match file.
#[derive(Clone, Copy, Debug, PartialEq, Eq, Structural)]
pub enum DecodeError {
    /// Wrong magic bytes, unsupported version, unknown flag bits or trailing bytes.
    FormatMismatch,
    /// The header or a declared pattern runs past the end of the bytes.
    Truncated,
}

pub open spec fn magic() -> Seq<u8> {
    seq![79u8, 76u8, 77u8, 70u8]
}

pub open spec fn u16_bytes(x: u16) -> Seq<u8> {
    seq![(x % 256) as u8, (x / 256) as u8]
}

pub open spec fn u32_bytes(x: u32) -> Seq<u8> {
    seq![
        (x % 256) as u8,
        ((x / 256) % 256) as u8,
        ((x / 65536) % 256) as u8,
        (x / 16777216) as u8,
    ]
}

/// The little-endian `u16` at `i`.
pub open spec fn read_u16(s: Seq<u8>, i: int) -> int {
    s[i] + 256 * s[i + 1]
}

/// The little-endian `u32` at `i`.
pub open spec fn read_u32(s: Seq<u8>, i: int) -> int {
    s[i] + 256 * s[i + 1] + 65536 * s[i + 2] + 16777216 * s[i + 3]
}

pub open spec fn flags_byte(c: NormalizeConfig) -> u8 {
    ((if c.case_insensitive { 1int } else { 0int }) + (if c.ignore_punctuation {
        2int
    } else {
        0int
    }) + (if c.elide_whitespace { 4int } else { 0int })) as u8
}

pub open spec fn flags_of(b: u8) -> NormalizeConfig {
    NormalizeConfig {
        case_insensitive: b % 2 == 1,
        ignore_punctuation: (b / 2) % 2 == 1,
        elide_whitespace: (b / 4) % 2 == 1,
    }
}

pub open spec fn header_bytes(h: MatchFileHeader) -> Seq<u8> {
    magic() + u16_bytes(h.version) + seq![flags_byte(h.flags)] + u32_bytes(h.pattern_count)
}

/// One stored pattern: its length, then its bytes.
pub open spec fn entry_bytes(p: Seq<u8>) -> Seq<u8> {
    u32_bytes(p.len() as u32) + p
}

pub open spec fn blob_bytes(ps: Seq<Seq<u8>>) -> Seq<u8>
    decreases ps.len(),
{
    if ps.len() == 0 {
        seq![]
    } else {
        entry_bytes(ps[0]) + blob_bytes(ps.drop_first())
    }
}

/// The bytes of a match file with header `h` and patterns `ps`.
pub open spec fn encoded(h: MatchFileHeader, ps: Seq<Seq<u8>>) -> Seq<u8> {
    header_bytes(h) + blob_bytes(ps)
}

/// A header that `encode` accepts: current version, count matching the patterns.
pub open spec fn encodable(h: MatchFileHeader, ps: Seq<Seq<u8>>) -> bool {
    &&& h.version == FORMAT_VERSION
    &&& h.pattern_count == ps.len()
    &&& forall|k: int| 0 <= k < ps.len() ==> #[trigger] ps[k].len() <= u32::MAX
}

pub open spec fn prepend(
    acc: Seq<Seq<u8>>,
    r: Result<Seq<Seq<u8>>, DecodeError>,
) -> Result<Seq<Seq<u8>>, DecodeError> {
    match r {
        Ok(ps) => Ok(acc + ps),
        Err(e) => Err(e),
    }
}

/// Reads `n` patterns from `pos` on; they must end exactly at the end of `s`.
pub open spec fn parse_patterns(s: Seq<u8>, pos: int, n: nat) -> Result<
    Seq<Seq<u8>>,
    DecodeError,
>
    decreases n,
{
    if n == 0 {
        if pos == s.len() {
            Ok(seq![])
        } else {
            Err(DecodeError::FormatMismatch)
        }
    } else if pos + 4 > s.len() {
        Err(DecodeError::Truncated)
    } else {
        let l = read_u32(s, pos);
        if pos + 4 + l > s.len() {
            Err(DecodeError::Truncated)
        } else {
            prepend(
                seq![s.subrange(pos + 4, pos + 4 + l)],
                parse_patterns(s, pos + 4 + l, (n - 1) as nat),
            )
        }
    }
}

pub open spec fn header_of(s: Seq<u8>) -> MatchFileHeader {
    MatchFileHeader {
        version: read_u16(s, 4) as u16,
        flags: flags_of(s[6]),
        pattern_count: read_u32(s, 7) as u32,
    }
}

pub open spec fn header_ok(s: Seq<u8>) -> bool {
    &&& s.subrange(0, 4) == magic()
    &&& read_u16(s, 4) == FORMAT_VERSION
    &&& s[6] < 8
}

/// What decoding `s` yields.
pub open spec fn decoded(s: Seq<u8>) -> Result<(MatchFileHeader, Seq<Seq<u8>>), DecodeError> {
    if s.len() < HEADER_LEN {
        Err(DecodeError::Truncated)
    } else if !header_ok(s) {
        Err(DecodeError::FormatMismatch)
    } else {
        match parse_patterns(s, HEADER_LEN as int, header_of(s).pattern_count as nat) {
            Ok(ps) => Ok((header_of(s), ps)),
            Err(e) => Err(e),
        }
    }
}

/// The contents of a list of byte vectors.
pub open spec fn views(v: Seq<Vec<u8>>) -> Seq<Seq<u8>> {
    Seq::new(v.len(), |k: int| v[k]@)
}

proof fn lemma_u32_round_trip(x: u32)
    ensures
        read_u32(u32_bytes(x), 0) == x,
{
    let b0 = x % 256;
    let r1 = x / 256;
    let r2 = r1 / 256;
    let r3 = r2 / 256;
    assert(x == b0 + 256 * r1);
    assert(r1 == r1 % 256 + 256 * r2);
    assert(r2 == r2 % 256 + 256 * r3);
    assert((x / 256) % 256 == r1 % 256);
    assert(x / 65536 == r2) by (nonlinear_arith)
        requires
            r1 == x / 256,
            r2 == r1 / 256,
    ;
    assert(x / 16777216 == r3) by (nonlinear_arith)
        requires
            r1 == x / 256,
            r2 == r1 / 256,
            r3 == r2 / 256,
    ;
}

proof fn lemma_u16_round_trip(x: u16)
    ensures
        read_u16(u16_bytes(x), 0) == x,
{
}

proof fn lemma_flags_round_trip(c: NormalizeConfig)
    ensures
        flags_of(flags_byte(c)) == c,
        flags_byte(c) < 8,
{
}

proof fn lemma_parse_blob(pre: Seq<u8>, ps: Seq<Seq<u8>>)
    requires
        forall|k: int| 0 <= k < ps.len() ==> #[trigger] ps[k].len() <= u32::MAX,
    ensures
        parse_patterns(pre + blob_bytes(ps), pre.len() as int, ps.len()) == Ok::<
            Seq<Seq<u8>>,
            DecodeError,
        >(ps),
    decreases ps.len(),
{
    let s = pre + blob_bytes(ps);
    if ps.len() == 0 {
        assert(s =~= pre);
        assert(ps =~= seq![]);
    } else {
        let p0 = ps[0];
        let rest = ps.drop_first();
        assert(p0.len() <= u32::MAX);
        let pre2 = pre + entry_bytes(p0);
        assert(s =~= pre2 + blob_bytes(rest));
        lemma_u32_round_trip(p0.len() as u32);
        let n = pre.len() as int;
        assert(read_u32(s, n) == read_u32(u32_bytes(p0.len() as u32), 0));
        assert(s.subrange(n + 4, n + 4 + p0.len()) =~= p0);
        assert forall|k: int| 0 <= k < rest.len() implies #[trigger] rest[k].len() <= u32::MAX by {
            assert(rest[k] == ps[k + 1]);
        }
        lemma_parse_blob(pre2, rest);
        assert(pre2.len() == n + 4 + p0.len());
        assert(n + 4 + p0.len() <= s.len());
        assert(seq![p0] + rest =~= ps);
    }
}

/// Decoding an encoded match file gives back its header and its patterns.
pub proof fn lemma_round_trip(h: MatchFileHeader, ps: Seq<Seq<u8>>)
    requires
        encodable(h, ps),
    ensures
        decoded(encoded(h, ps)) == Ok::<(MatchFileHeader, Seq<Seq<u8>>), DecodeError>((h, ps)),
{
    let s = encoded(h, ps);
    let hb = header_bytes(h);
    assert(hb.len() == HEADER_LEN);
    lemma_u16_round_trip(h.version);
    lemma_u32_round_trip(h.pattern_count);
    lemma_flags_round_trip(h.flags);
    assert(s.subrange(0, 4) =~= magic());
    assert(read_u16(s, 4) == read_u16(u16_bytes(h.version), 0));
    assert(read_u32(s, 7) == read_u32(u32_bytes(h.pattern_count), 0));
    assert(header_of(s) == h);
    lemma_parse_blob(hb, ps);
}

proof fn lemma_blob_push(ps: Seq<Seq<u8>>, p: Seq<u8>)
    ensures
        blob_bytes(ps.push(p)) == blob_bytes(ps) + entry_bytes(p),
    decreases ps.len(),
{
    if ps.len() == 0 {
        assert(ps.push(p).drop_first() =~= seq![]);
        assert(ps.push(p)[0] == p);
        assert(blob_bytes(ps.push(p).drop_first()) =~= seq![]);
        assert(blob_bytes(ps) =~= seq![]);
        assert(blob_bytes(ps.push(p)) =~= entry_bytes(p));
    } else {
        assert(ps.push(p).drop_first() =~= ps.drop_first().push(p));
        lemma_blob_push(ps.drop_first(), p);
        assert(blob_bytes(ps.push(p)) =~= blob_bytes(ps) + entry_bytes(p));
    }
}

fn push_u32(out: &mut Vec<u8>, x: u32)
    ensures
        final(out)@ == old(out)@ + u32_bytes(x),
{
    out.push((x % 256) as u8);
    out.push(((x / 256) % 256) as u8);
    out.push(((x / 65536) % 256) as u8);
    out.push((x / 16777216) as u8);
    proof {
        assert(final(out)@ =~= old(out)@ + u32_bytes(x));
    }
}

fn flags_to_byte(c: &NormalizeConfig) -> (r: u8)
    ensures
        r == flags_byte(*c),
{
    let mut b: u8 = 0;
    if c.case_insensitive {
        b = b + 1;
    }
    if c.ignore_punctuation {
        b = b + 2;
    }
    if c.elide_whitespace {
        b = b + 4;
    }
    b
}

/// Serializes a header and its patterns.
pub fn encode(h: &MatchFileHeader, ps: &Vec<Vec<u8>>) -> (r: Vec<u8>)
    requires
        encodable(*h, views(ps@)),
    ensures
        r@ == encoded(*h, views(ps@)),
{
    let mut out: Vec<u8> = Vec::new();
    out.push(79);
    out.push(76);
    out.push(77);
    out.push(70);
    out.push((h.version % 256) as u8);
    out.push((h.version / 256) as u8);
    out.push(flags_to_byte(&h.flags));
    push_u32(&mut out, h.pattern_count);
    proof {
        assert(out@ =~= header_bytes(*h));
        assert(views(ps@).take(0) =~= seq![]);
        assert(out@ =~= header_bytes(*h) + blob_bytes(views(ps@).take(0)));
    }
    let mut i: usize = 0;
    while i < ps.len()
        invariant
            i <= ps@.len(),
            encodable(*h, views(ps@)),
            out@ == header_bytes(*h) + blob_bytes(views(ps@).take(i as int)),
        decreases ps@.len() - i,
    {
        let p = &ps[i];
        assert(views(ps@)[i as int].len() <= u32::MAX);
        push_u32(&mut out, p.len() as u32);
        let mut j: usize = 0;
        let ghost before = out@;
        while j < p.len()
            invariant
                j <= p@.len(),
                out@ == before + p@.subrange(0, j as int),
            decreases p@.len() - j,
        {
            out.push(p[j]);
            j = j + 1;
            proof {
                assert(out@ =~= before + p@.subrange(0, j as int));
            }
        }
        proof {
            let vs = views(ps@);
            assert(p@.subrange(0, p@.len() as int) =~= p@);
            assert(vs.take(i + 1) =~= vs.take(i as int).push(vs[i as int]));
            lemma_blob_push(vs.take(i as int), vs[i as int]);
            assert(out@ =~= header_bytes(*h) + blob_bytes(vs.take(i + 1)));
        }
        i = i + 1;
    }
    proof {
        assert(views(ps@).take(ps@.len() as int) =~= views(ps@));
    }
    out
}

fn read_u32_at(s: &[u8], i: usize) -> (r: u32)
    requires
        i + 4 <= s@.len(),
    ensures
        r == read_u32(s@, i as int),
{
    s[i] as u32 + 256 * (s[i + 1] as u32) + 65536 * (s[i + 2] as u32) + 16777216 * (s[i
        + 3] as u32)
}

/// Reads a match file back; the result is exactly `decoded(s@)`.
pub fn decode(s: &[u8]) -> (r: Result<(MatchFileHeader, Vec<Vec<u8>>), DecodeError>)
    ensures
        match r {
            Ok((h, ps)) => decoded(s@) == Ok::<(MatchFileHeader, Seq<Seq<u8>>), DecodeError>(
                (h, views(ps@)),
            ),
            Err(e) => decoded(s@) == Err::<(MatchFileHeader, Seq<Seq<u8>>), DecodeError>(e),
        },
{
    if s.len() < HEADER_LEN {
        return Err(DecodeError::Truncated);
    }
    let version: u16 = (s[4] as u16) + 256 * (s[5] as u16);
    if !(s[0] == 79 && s[1] == 76 && s[2] == 77 && s[3] == 70) || version != FORMAT_VERSION
        || s[6] >= 8 {
        proof {
            if s@.subrange(0, 4) == magic() {
                assert(s@[0] == s@.subrange(0, 4)[0]);
                assert(s@[1] == s@.subrange(0, 4)[1]);
                assert(s@[2] == s@.subrange(0, 4)[2]);
                assert(s@[3] == s@.subrange(0, 4)[3]);
            }
        }
        return Err(DecodeError::FormatMismatch);
    }
    proof {
        assert(s@.subrange(0, 4) =~= magic());
    }
    let b = s[6];
    let flags = NormalizeConfig {
        case_insensitive: b % 2 == 1,
        ignore_punctuation: (b / 2) % 2 == 1,
        elide_whitespace: (b / 4) % 2 == 1,
    };
    let count = read_u32_at(s, 7);
    let h = MatchFileHeader { version, flags, pattern_count: count };
    assert(h == header_of(s@));
    let mut ps: Vec<Vec<u8>> = Vec::new();
    let mut pos: usize = HEADER_LEN;
    let mut i: u32 = 0;
    while i < count
        invariant
            i <= count,
            HEADER_LEN <= pos <= s@.len(),
            header_ok(s@),
            h == header_of(s@),
            count == h.pattern_count,
            parse_patterns(s@, HEADER_LEN as int, count as nat) == prepend(
                views(ps@),
                parse_patterns(s@, pos as int, (count - i) as nat),
            ),
        decreases count - i,
    {
        if s.len() - pos < 4 {
            return Err(DecodeError::Truncated);
        }
        let l = read_u32_at(s, pos);
        if s.len() - pos - 4 < l as usize {
            return Err(DecodeError::Truncated);
        }
        let start = pos + 4;
        let end = start + l as usize;
        let mut p: Vec<u8> = Vec::new();
        let mut j: usize = start;
        while j < end
            invariant
                start <= j <= end <= s@.len(),
                p@ == s@.subrange(start as int, j as int),
            decreases end - j,
        {
            p.push(s[j]);
            j = j + 1;
            proof {
                assert(p@ =~= s@.subrange(start as int, j as int));
            }
        }
        proof {
            let old_views = views(ps@);
            let rest = parse_patterns(s@, end as int, (count - i - 1) as nat);
            assert(parse_patterns(s@, pos as int, (count - i) as nat) == prepend(seq![p@], rest));
            assert(views(ps@.push(p)) =~= old_views + seq![p@]);
            match rest {
                Ok(r) => {
                    assert(old_views + (seq![p@] + r) =~= (old_views + seq![p@]) + r);
                },
                Err(_) => {},
            }
        }
        ps.push(p);
        pos = end;
        i = i + 1;
    }
    if pos != s.len() {
        return Err(DecodeError::FormatMismatch);
    }
    proof {
        assert(views(ps@) + seq![] =~= views(ps@));
    }
    Ok((h, ps))
}

} // verus!
