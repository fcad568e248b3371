use rolm::compiler::{Compiler, CompilerOptions};
use rolm::matcher::{MatchError, Matcher};
use rolm::modifiers::get_options;
use rolm::normalize::{normalize, NormalizeConfig};
use rolm::codec::DecodeError;
use rolm::params::{MatchParams, MatchParamsBuilder};
use rolm::scan::{
    build_index, chunk_bounds, chunk_size_for, scan_haystack, scan_segment, MatchResults,
    ScanOptions,
};
use rolm::stats::MatcherStats;

fn raw(ps: &[&str]) -> Vec<Vec<u8>> {
    ps.iter().map(|p| p.as_bytes().to_vec()).collect()
}

fn plain() -> NormalizeConfig {
    NormalizeConfig { case_insensitive: false, ignore_punctuation: false, elide_whitespace: false }
}

fn opts() -> ScanOptions {
    ScanOptions {
        no_overlap: false,
        longest_only: false,
        word_boundary: false,
        word_prefix: false,
        word_suffix: false,
        line_start: false,
        line_end: false,
    }
}

fn hit(id: usize, offset: usize, length: usize) -> MatchResults {
    MatchResults { pattern_id: id, offset, length }
}

fn matcher_for(patterns: &[&str], flags: &[&str]) -> Matcher {
    let mut compiler = Compiler::new();
    let bytes = compiler.compile(&raw(patterns)).unwrap();
    let params = get_options(&flags.to_vec());
    Matcher::load(&bytes, &params).unwrap()
}

#[test]
fn longest_only_scenario() {
    let mut m = matcher_for(&["cat", "catalog"], &["--longest-only"]);
    let r = m.scan(b"the catalog");
    assert_eq!(r.results, vec![hit(1, 4, 7)]);
    let mut m = matcher_for(&["cat", "catalog"], &[]);
    let r = m.scan(b"the catalog");
    assert_eq!(r.results, vec![hit(0, 4, 3), hit(1, 4, 7)]);
    assert_eq!(r.count(), 2);
}

#[test]
fn word_boundary_scenario() {
    let mut m = matcher_for(&["cat"], &["--word-boundary"]);
    assert_eq!(m.scan(b"concatenate").count(), 0);
    assert_eq!(m.matcher_stats.total_filtered, 1);
    let mut m = matcher_for(&["cat"], &[]);
    assert_eq!(m.scan(b"concatenate").results, vec![hit(0, 3, 3)]);
}

#[test]
fn no_overlap_scenario() {
    let mut m = matcher_for(&["ana"], &[]);
    assert_eq!(m.scan(b"banana").results, vec![hit(0, 1, 3), hit(0, 3, 3)]);
    let mut m = matcher_for(&["ana"], &["--no-overlap"]);
    assert_eq!(m.scan(b"banana").results, vec![hit(0, 1, 3)]);
}

#[test]
fn recall_reports_every_occurrence() {
    let pats = vec![b"ab".to_vec(), b"bab".to_vec(), b"abab".to_vec()];
    let hay = b"ababab";
    let (r, stats) = scan_haystack(&plain(), &opts(), &pats, hay);
    for (id, p) in pats.iter().enumerate() {
        for j in 0..=hay.len() - p.len() {
            if &hay[j..j + p.len()] == p.as_slice() {
                assert!(r.contains(&hit(id, j, p.len())));
            }
        }
    }
    assert_eq!(r.len(), 3 + 2 + 2);
    assert_eq!(stats.total_hits, 7);
    assert_eq!(stats.total_attempts, 6);
    assert_eq!(stats.total_misses, 1);
}

#[test]
fn word_prefix_and_suffix() {
    let pats = vec![b"cat".to_vec()];
    let hay = b"cats bobcat";
    let mut o = opts();
    o.word_prefix = true;
    assert_eq!(scan_haystack(&plain(), &o, &pats, hay).0, vec![hit(0, 0, 3)]);
    let mut o = opts();
    o.word_suffix = true;
    assert_eq!(scan_haystack(&plain(), &o, &pats, hay).0, vec![hit(0, 8, 3)]);
    let mut o = opts();
    o.word_boundary = true;
    assert_eq!(scan_haystack(&plain(), &o, &pats, b"a cat_ cat.").0, vec![hit(0, 7, 3)]);
}

#[test]
fn line_anchors() {
    let pats = vec![b"ab".to_vec()];
    let hay = b"ab ab\nab";
    let mut o = opts();
    o.line_start = true;
    assert_eq!(scan_haystack(&plain(), &o, &pats, hay).0, vec![hit(0, 0, 2), hit(0, 6, 2)]);
    let mut o = opts();
    o.line_end = true;
    assert_eq!(scan_haystack(&plain(), &o, &pats, hay).0, vec![hit(0, 3, 2), hit(0, 6, 2)]);
}

#[test]
fn longest_ties_keep_lowest_id() {
    let pats = vec![b"xy".to_vec(), b"xyz".to_vec(), b"xyz".to_vec()];
    let mut o = opts();
    o.longest_only = true;
    let (r, stats) = scan_haystack(&plain(), &o, &pats, b"xyz");
    assert_eq!(r, vec![hit(1, 0, 3)]);
    assert_eq!(stats.total_filtered, 2);
}

#[test]
fn empty_haystack_and_empty_pattern() {
    let pats = vec![Vec::new(), b"a".to_vec()];
    let (r, stats) = scan_haystack(&plain(), &opts(), &pats, b"");
    assert!(r.is_empty());
    assert_eq!(stats.total_attempts, 0);
    let (r, _) = scan_haystack(&plain(), &opts(), &pats, b"aa");
    assert_eq!(r, vec![hit(1, 0, 1), hit(1, 1, 1)]);
}

#[test]
fn normalization_maps_offsets_back() {
    let cfg = NormalizeConfig { case_insensitive: true, ignore_punctuation: true, elide_whitespace: true };
    let (n, map) = normalize(&cfg, b"A b-C!");
    assert_eq!(n, b"abc".to_vec());
    assert_eq!(map, vec![0, 2, 4]);
    let (n2, _) = normalize(&cfg, &n);
    assert_eq!(n2, n);
    let (n, map) = normalize(&plain(), b"A b");
    assert_eq!(n, b"A b".to_vec());
    assert_eq!(map, vec![0, 1, 2]);
}

#[test]
fn normalized_scan_reports_original_coordinates() {
    let mut compiler = Compiler::new();
    compiler.set(CompilerOptions::CaseInsensitive).set(CompilerOptions::ElideWhitespace);
    let bytes = compiler.compile(&raw(&["New York"])).unwrap();
    let params = get_options(&vec!["--ignore-case", "--elide-whitespace"]);
    let mut m = Matcher::load(&bytes, &params).unwrap();
    let r = m.scan(b"in NEW  yORK city");
    assert_eq!(r.results, vec![hit(0, 3, 9)]);
    assert_eq!(m.pattern_stats.stored_pattern_count, 1);
    assert_eq!(m.pattern_stats.total_stored_bytes, 7);
}

#[test]
fn matcher_refuses_conflicting_flags() {
    let mut compiler = Compiler::new();
    compiler.set(CompilerOptions::CaseInsensitive);
    let bytes = compiler.compile(&raw(&["abc"])).unwrap();
    let none = MatchParams::new();
    assert!(matches!(Matcher::load(&bytes, &none), Err(MatchError::ConfigConflict)));
    let mut b = MatchParamsBuilder::new();
    b.set("ignorecase", 1);
    assert!(Matcher::load(&bytes, &b.build()).is_ok());
}

#[test]
fn matcher_refuses_bad_files() {
    let none = MatchParams::new();
    assert!(matches!(
        Matcher::load(b"nonsense file", &none),
        Err(MatchError::FormatMismatch(DecodeError::FormatMismatch))
    ));
    assert!(matches!(
        Matcher::load(b"OLM", &none),
        Err(MatchError::FormatMismatch(DecodeError::Truncated))
    ));
}

#[test]
fn matcher_stats_accumulate() {
    let mut m = matcher_for(&["ab"], &[]);
    m.scan(b"abab");
    m.scan(b"xab");
    assert_eq!(m.matcher_stats.total_hits, 3);
    assert_eq!(m.matcher_stats.total_attempts, 7);
    assert_eq!(m.matcher_stats.total_misses, 4);
    assert!(m.matcher_stats.total_comparisons >= 6);
}

#[test]
fn segments_join_to_full_scan() {
    let cfg = NormalizeConfig { case_insensitive: true, ignore_punctuation: false, elide_whitespace: false };
    let pats = vec![b"ab".to_vec(), b"bab".to_vec(), b"xyz".to_vec()];
    let hay = b"ABABxyzbabab";
    let (full, full_stats) = scan_haystack(&cfg, &opts(), &pats, hay);
    let (norm, offs) = normalize(&cfg, hay);
    let index = build_index(&pats);
    for chunk in 1..=norm.len() {
        let bounds = chunk_bounds(norm.len(), chunk);
        let mut joined = Vec::new();
        let mut attempts = 0;
        for w in bounds.windows(2) {
            let (r, s) = scan_segment(&cfg, &opts(), &pats, hay, &norm, &offs, &index, w[0], w[1]);
            joined.extend(r);
            attempts += s.total_attempts;
        }
        assert_eq!(joined, full);
        assert_eq!(attempts, full_stats.total_attempts);
    }
}

#[test]
fn chunk_bounds_cover_the_range() {
    assert_eq!(chunk_bounds(10, 4), vec![0, 4, 8, 10]);
    assert_eq!(chunk_bounds(8, 4), vec![0, 4, 8]);
    assert_eq!(chunk_bounds(0, 3), vec![0, 0]);
    assert_eq!(chunk_size_for(10, 3), 4);
    assert_eq!(chunk_size_for(9, 3), 3);
    assert_eq!(chunk_size_for(0, 4), 1);
    assert_eq!(chunk_size_for(7, 0), 7);
}

#[test]
fn matcher_stats_add_saturates() {
    let mut a = MatcherStats::new();
    a.total_hits = u64::MAX - 1;
    a.total_misses = 3;
    let mut b = MatcherStats::new();
    b.total_hits = 5;
    b.total_misses = 4;
    let c = a.add(&b);
    assert_eq!(c.total_hits, u64::MAX);
    assert_eq!(c.total_misses, 7);
}
