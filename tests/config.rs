use rolm::config::{
    AppModes, IgnoreCaseModifier, IsModifier, ModifierParser, ProgramModifier, VerboseModifier,
    WordBoundaryModifier,
};
use rolm::modifiers::{enable_modifier, is_enabled, is_match_option, MatchModifiers, ModifierTable};
use std::str::FromStr;

#[test]
fn mode_from_string() {
    let in_mode = "match";
    let mode = AppModes::from("match");
    assert_eq!(mode.to_string(), in_mode);
}

#[test]
fn mode_undefined_when_invalid() {
    let in_mode = "invalid";
    let mode = AppModes::from(in_mode);
    assert_eq!(mode, AppModes::UNDEFINED {});
}

#[test]
fn default_mode_is_undefined() {
    let mode = AppModes::default();
    assert_eq!(mode, AppModes::UNDEFINED {});
}

#[test]
fn mode_parse_results() {
    assert_eq!(AppModes::from_str("compile"), Ok(AppModes::COMPILE));
    assert_eq!(AppModes::from_str("match"), Ok(AppModes::MATCH));
    assert_eq!(AppModes::from_str("Match"), Err(AppModes::UNDEFINED));
    assert_eq!(AppModes::COMPILE.to_string(), "compile");
    assert_eq!(AppModes::UNDEFINED.to_string(), "undefined");
}

#[test]
fn can_resolve_modifer_string() {
    let mod_str = "-v";
    let modifer: ProgramModifier = ModifierParser::get(&mod_str).unwrap();
    assert_eq!(modifer.id(), "verbose");
}

#[test]
fn can_resolve_multiple_modifiers() {
    let mod_strs: Vec<&str> = vec!["-v", "--ignore-case"];

    let strs: Vec<ProgramModifier> = mod_strs
        .into_iter()
        .map(|id| match ModifierParser::get(id) {
            Ok(ret) => ret,
            Err(e) => panic!("{}", e),
        })
        .collect();

    assert_eq!(strs.len(), 2);
}

#[test]
fn errors_on_invalid_modifier_parse() {
    let mod_strs: Vec<&str> = vec!["-v", "--invalid"];
    let mut err_occured = false;

    let mut mods: Vec<ProgramModifier> = Vec::new();
    for mod_str in mod_strs {
        match ModifierParser::get(&mod_str) {
            Ok(modifier) => mods.push(modifier),
            Err(e) => {
                println!("{}", e);
                err_occured = true
            }
        }
    }
    assert!(err_occured);
}

#[test]
fn modifier_parser_error_text() {
    assert_eq!(
        ModifierParser::get("--nope"),
        Err("Key: --nope is not a modifier option".to_string())
    );
    assert_eq!(ModifierParser::get("--word-boundary"), Ok(ProgramModifier::WordBoundary));
    assert_eq!(ModifierParser::get("--ignore-case").unwrap().id(), "ignore-case");
}

#[test]
fn modifier_keys_and_ids() {
    assert!(VerboseModifier::is_key("-v"));
    assert!(VerboseModifier::is_key("--verbose"));
    assert!(!VerboseModifier::is_key("--ignore-case"));
    assert!(IgnoreCaseModifier::is_key("--ignore-case"));
    assert!(!IgnoreCaseModifier::is_key("-v"));
    assert!(WordBoundaryModifier::is_key("--word-boundary"));
    assert_eq!(IsModifier::id(&VerboseModifier), "verbose");
    assert_eq!(IsModifier::id(&IgnoreCaseModifier), "ignore-case");
    assert_eq!(IsModifier::id(&WordBoundaryModifier), "word-boundary");
}

#[test]
fn can_enable_modifier() {
    let from_cli = "--verbose";
    let mut table = ModifierTable::new();
    enable_modifier(&mut table, from_cli);
    assert!(table.is_enabled(MatchModifiers::Verbose));
}

#[test]
fn modifiers_start_disabled() {
    let table = ModifierTable::default();
    assert!(!is_enabled(&table, "-v"));
    let mut table = table;
    enable_modifier(&mut table, "v");
    assert!(is_enabled(&table, "--verbose"));
}

#[test]
fn match_modifier_parse() {
    assert_eq!(MatchModifiers::from_str("--v-e-r-bose"), Ok(MatchModifiers::Verbose));
    assert_eq!(
        MatchModifiers::from_str("--loud"),
        Err("--loud is not a valid match modifier".to_string())
    );
}

#[test]
fn match_option_names() {
    assert!(is_match_option("--ignore-case"));
    assert!(is_match_option("--no-overlap"));
    assert!(is_match_option("threads"));
    assert!(!is_match_option("file1"));
    assert!(!is_match_option("--verbose"));
}
