use rolm::compiler::{Compiler, CompilerOptions, OLMCompilerError};
use rolm::codec::{decode, encode, DecodeError, MatchFileHeader, FORMAT_VERSION};
use rolm::normalize::NormalizeConfig;
use rolm::patterns::CompilerPatterns;
use rolm::store::CompileError;

fn raw(ps: &[&str]) -> Vec<Vec<u8>> {
    ps.iter().map(|p| p.as_bytes().to_vec()).collect()
}

#[test]
fn can_chain_set_compile_opts() {
    let mut compiler = Compiler::new();
    compiler
        .set(CompilerOptions::CaseInsensitive)
        .set(CompilerOptions::ElideWhitespace);
    assert!(compiler.is_set(CompilerOptions::CaseInsensitive));
    assert!(compiler.is_set(CompilerOptions::ElideWhitespace));
}

#[test]
fn can_convert_opts_to_ints() {
    let mut compiler = Compiler::new();
    compiler
        .set(CompilerOptions::CaseInsensitive)
        .set(CompilerOptions::ElideWhitespace);
    let [noncase, ignore, ewht] = compiler.get_opts_as_params();
    assert_eq!(noncase, 1);
    assert_eq!(ignore, 0);
    assert_eq!(ewht, 1);
}

#[test]
fn retains_patterns_for_compilation() {
    let mut compiler = CompilerPatterns::new();
    compiler.add_pattern("foo");
    assert_eq!(compiler.patterns.len(), 1);
}

#[test]
fn can_create_patterns_from_vector() {
    let patterns = vec!["foo", "bar"];
    let compiler = CompilerPatterns::from_strs(patterns);
    assert_eq!(compiler.patterns.len(), 2);
}

#[test]
fn can_write_patterns_to_formatter() {
    let patterns = vec!["foo", "bar"];
    let compiler = CompilerPatterns::from_strs(patterns);
    let output = compiler.to_text();

    assert_eq!(output, "foo\nbar\n");
}

#[test]
fn patterns_from_owned_strings() {
    let p = CompilerPatterns::from(vec!["x".to_string(), "yz".to_string()]);
    assert_eq!(p.len(), 2);
    assert_eq!(p.to_text(), "x\nyz\n");
}

#[test]
fn fresh_compiler_has_no_switch_set() {
    let compiler = Compiler::new();
    assert!(!compiler.is_set(CompilerOptions::CaseInsensitive));
    assert!(!compiler.is_set(CompilerOptions::IgnorePunctionation));
    assert!(!compiler.is_set(CompilerOptions::ElideWhitespace));
    assert_eq!(compiler.get_opts_as_params(), [0, 0, 0]);
}

#[test]
fn dedup_counts_duplicates() {
    let mut compiler = Compiler::new();
    let r = compiler.compile(&raw(&["foo", "bar", "foo"]));
    assert!(r.is_ok());
    assert_eq!(compiler.stats.stored_pattern_count, 2);
    assert_eq!(compiler.stats.duplicate_patterns, 1);
    assert_eq!(compiler.stats.short_pattern_count, 0);
    assert_eq!(compiler.stats.total_input_bytes, 9);
    assert_eq!(compiler.stats.total_stored_bytes, 6);
}

#[test]
fn short_patterns_are_filtered() {
    let mut compiler = Compiler::new();
    let r = compiler.compile(&raw(&["a", "bb"]));
    assert!(r.is_ok());
    assert_eq!(compiler.stats.short_pattern_count, 1);
    assert_eq!(compiler.stats.stored_pattern_count, 1);
    assert_eq!(compiler.stats.smallest_pattern_length, 2);
    assert_eq!(compiler.stats.largest_pattern_length, 2);
}

#[test]
fn stats_track_smallest_and_largest() {
    let mut compiler = Compiler::new();
    compiler.compile(&raw(&["abcd", "xy", "abcdefg", "q"])).unwrap();
    let s = compiler.stats;
    assert_eq!(s.stored_pattern_count, 3);
    assert_eq!(s.short_pattern_count, 1);
    assert_eq!(s.smallest_pattern_length, 2);
    assert_eq!(s.largest_pattern_length, 7);
    assert_eq!(
        s.stored_pattern_count + s.short_pattern_count + s.duplicate_patterns,
        4
    );
}

#[test]
fn case_folding_dedups_at_compile_time() {
    let mut compiler = Compiler::new();
    compiler.set(CompilerOptions::CaseInsensitive);
    compiler.compile(&raw(&["Foo", "fOO", "bar"])).unwrap();
    assert_eq!(compiler.stats.stored_pattern_count, 2);
    assert_eq!(compiler.stats.duplicate_patterns, 1);
}

#[test]
fn punctuation_elision_can_make_patterns_short() {
    let mut compiler = Compiler::new();
    compiler.set(CompilerOptions::IgnorePunctionation);
    compiler.compile(&raw(&["a.", "b-c"])).unwrap();
    assert_eq!(compiler.stats.short_pattern_count, 1);
    assert_eq!(compiler.stats.stored_pattern_count, 1);
    assert_eq!(compiler.stats.total_stored_bytes, 2);
}

#[test]
fn nothing_stored_is_an_error() {
    let mut compiler = Compiler::new();
    assert_eq!(compiler.compile(&raw(&["a", "b"])), Err(CompileError::Empty));
    assert_eq!(compiler.stats.short_pattern_count, 2);
    assert_eq!(compiler.compile(&Vec::new()), Err(CompileError::Empty));
}

#[test]
fn compiled_file_decodes_to_stored_patterns() {
    let mut compiler = Compiler::new();
    compiler.set(CompilerOptions::CaseInsensitive);
    let bytes = compiler.compile(&raw(&["Cat", "dog", "CAT"])).unwrap();
    let (h, ps) = decode(&bytes).unwrap();
    assert_eq!(h.version, FORMAT_VERSION);
    assert!(h.flags.case_insensitive);
    assert!(!h.flags.ignore_punctuation);
    assert_eq!(h.pattern_count, 2);
    assert_eq!(ps, vec![b"cat".to_vec(), b"dog".to_vec()]);
}

#[test]
fn compile_patterns_uses_utf8_bytes() {
    let mut compiler = Compiler::new();
    let p = CompilerPatterns::from_strs(vec!["héllo", "ok"]);
    let bytes = compiler.compile_patterns(&p).unwrap();
    let (_, ps) = decode(&bytes).unwrap();
    assert_eq!(ps[0], "héllo".as_bytes().to_vec());
    assert_eq!(compiler.stats.total_input_bytes, 8);
}

#[test]
fn header_round_trip() {
    let flags = NormalizeConfig {
        case_insensitive: true,
        ignore_punctuation: false,
        elide_whitespace: true,
    };
    let h = MatchFileHeader { version: FORMAT_VERSION, flags, pattern_count: 2 };
    let ps = vec![b"abc".to_vec(), vec![0u8; 300]];
    let bytes = encode(&h, &ps);
    assert_eq!(bytes.len(), 11 + 4 + 3 + 4 + 300);
    let (h2, ps2) = decode(&bytes).unwrap();
    assert_eq!(h2, h);
    assert_eq!(ps2, ps);
}

#[test]
fn encode_layout_is_exact() {
    let flags = NormalizeConfig {
        case_insensitive: false,
        ignore_punctuation: true,
        elide_whitespace: false,
    };
    let h = MatchFileHeader { version: FORMAT_VERSION, flags, pattern_count: 1 };
    let bytes = encode(&h, &vec![b"hi".to_vec()]);
    assert_eq!(
        bytes,
        vec![b'O', b'L', b'M', b'F', 1, 0, 2, 1, 0, 0, 0, 2, 0, 0, 0, b'h', b'i']
    );
}

#[test]
fn decode_rejects_bad_magic_and_version() {
    let h = MatchFileHeader {
        version: FORMAT_VERSION,
        flags: NormalizeConfig {
            case_insensitive: false,
            ignore_punctuation: false,
            elide_whitespace: false,
        },
        pattern_count: 1,
    };
    let good = encode(&h, &vec![b"hi".to_vec()]);
    let mut bad_magic = good.clone();
    bad_magic[0] = b'X';
    assert_eq!(decode(&bad_magic), Err(DecodeError::FormatMismatch));
    let mut bad_version = good.clone();
    bad_version[4] = 2;
    assert_eq!(decode(&bad_version), Err(DecodeError::FormatMismatch));
    let mut bad_flags = good.clone();
    bad_flags[6] = 8;
    assert_eq!(decode(&bad_flags), Err(DecodeError::FormatMismatch));
    let mut trailing = good.clone();
    trailing.push(0);
    assert_eq!(decode(&trailing), Err(DecodeError::FormatMismatch));
}

#[test]
fn decode_reports_truncation() {
    let h = MatchFileHeader {
        version: FORMAT_VERSION,
        flags: NormalizeConfig {
            case_insensitive: false,
            ignore_punctuation: false,
            elide_whitespace: false,
        },
        pattern_count: 1,
    };
    let good = encode(&h, &vec![b"hello".to_vec()]);
    assert_eq!(decode(&good[..5]), Err(DecodeError::Truncated));
    assert_eq!(decode(&good[..13]), Err(DecodeError::Truncated));
    assert_eq!(decode(&good[..good.len() - 1]), Err(DecodeError::Truncated));
    assert_eq!(decode(&[]), Err(DecodeError::Truncated));
}

#[test]
fn compiler_error_messages() {
    let e = OLMCompilerError::new("boom");
    assert_eq!(e.message(), "[Rust OLM] Err: boom");
    let e = OLMCompilerError::from_compile_error(CompileError::Empty);
    assert_eq!(e.message(), "[Rust OLM] Err: no pattern survived filtering");
}
