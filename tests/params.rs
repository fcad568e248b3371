use rolm::modifiers::get_options;
use rolm::params::{MatchParam, MatchParams, MatchParamsBuilder, MatchParamsType};
use std::str::FromStr;

#[test]
fn param_types_init_with_value() {
    let mut builder = MatchParamsBuilder::new();
    builder.set("ignorecase", 1).set("threads", 2);
    let params: MatchParams = builder.into();
    assert_eq!(params.get("ignorecase"), 1);
    assert_eq!(params.get("threads"), 2);
}

#[test]
fn can_build_from_cli_args() {
    let args = vec!["--ignore-case", "--word-boundary", "--elide-whitespace"];
    let builder = MatchParamsBuilder::from_args(&args);
    let params: MatchParams = builder.into();

    assert_eq!(params.get("ignorecase"), 1);
}

#[test]
fn can_build_from_split_iter() {
    let args = vec![
        "olm",
        "match",
        "--ignore-case",
        "--word-boundary",
        "--elide-whitespace",
        "file1",
        "file2",
    ];

    let opts: Vec<&str> = args
        .iter()
        .filter_map(|&s| match s.starts_with("--") {
            true => Some(s),
            false => None,
        })
        .collect();
    let builder = MatchParamsBuilder::from_args(&opts);
    let params: MatchParams = builder.into();
    assert_eq!(params.get("ignorecase"), 1);
    assert_eq!(params.get("wordboundary"), 1);
}

#[test]
fn params_count_and_lookup() {
    let params = get_options(&vec!["--longest-only", "--no-overlap", "--longest-only"]);
    assert_eq!(params.len(), 2);
    assert_eq!(params.value_of(MatchParamsType::LongestOnly), Some(1));
    assert_eq!(params.value_of(MatchParamsType::Threads), None);
    let opts = params.scan_options();
    assert!(opts.longest_only && opts.no_overlap);
    assert!(!opts.word_boundary && !opts.line_start);
    assert_eq!(MatchParams::new().len(), 0);
}

#[test]
fn param_set_overwrites() {
    let mut b = MatchParamsBuilder::new();
    b.set("--threads", 4).set("threads", 8).set("chunk-size", 0);
    let params = b.build();
    assert_eq!(params.get("threads"), 8);
    assert_eq!(params.len(), 2);
    assert!(!params.is_on(MatchParamsType::ChunkSize));
}

#[test]
fn param_type_parse() {
    assert_eq!(MatchParamsType::from_str("--line-start"), Ok(MatchParamsType::LineStart));
    assert_eq!(MatchParamsType::from_str("output-to-file"), Ok(MatchParamsType::OutputToFile));
    assert_eq!(
        MatchParamsType::from_str("--bogus"),
        Err("--bogus is not a valid match modifier".to_string())
    );
}

#[test]
fn match_param_value() {
    let p = MatchParam::new(7);
    assert_eq!(*p.get_value(), 7);
}
