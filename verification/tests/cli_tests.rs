use voikko::analysis::{Analysis, ATTR_STRUCTURE};
use voikko::cli::{filter_analysis_list, parse_dict_path, wants_help};

fn reading(structure: &str) -> Analysis {
    let mut a = Analysis::new();
    a.set(ATTR_STRUCTURE, structure);
    a
}

fn structures(v: &[Analysis]) -> Vec<String> {
    v.iter().map(|a| a.get(ATTR_STRUCTURE).unwrap_or("").to_string()).collect()
}

fn args(v: &[&str]) -> Vec<String> {
    v.iter().map(|s| s.to_string()).collect()
}

#[test]
fn help_flags_are_found() {
    assert!(wants_help(&args(&["koira", "--help"])));
    assert!(wants_help(&args(&["-h"])));
    assert!(!wants_help(&args(&["koira", "-help", "--helpme"])));
    assert!(!wants_help(&args(&[])));
}

#[test]
fn dict_path_with_equals() {
    let (d, rest) = parse_dict_path(&args(&["--dict-path=/tmp/dict", "koira"])).unwrap();
    assert_eq!(d.as_deref(), Some("/tmp/dict"));
    assert_eq!(rest, args(&["koira"]));
}

#[test]
fn dict_path_as_next_argument() {
    let (d, rest) = parse_dict_path(&args(&["a", "-d", "/x", "b", "--dict-path", "/y", "c"])).unwrap();
    assert_eq!(d.as_deref(), Some("/y"));
    assert_eq!(rest, args(&["a", "b", "c"]));
}

#[test]
fn dict_path_absent() {
    let (d, rest) = parse_dict_path(&args(&["koira", "kissa"])).unwrap();
    assert!(d.is_none());
    assert_eq!(rest, args(&["koira", "kissa"]));
}

#[test]
fn dict_path_empty_value() {
    let (d, rest) = parse_dict_path(&args(&["--dict-path="])).unwrap();
    assert_eq!(d.as_deref(), Some(""));
    assert!(rest.is_empty());
}

#[test]
fn dict_path_flag_without_value_is_error() {
    assert_eq!(parse_dict_path(&args(&["koira", "-d"])), Err("-d".to_string()));
    assert_eq!(parse_dict_path(&args(&["--dict-path"])), Err("--dict-path".to_string()));
}

#[test]
fn lowercase_word_prefers_common_readings() {
    let readings = vec![reading("=ippp"), reading("=pppp"), Analysis::new()];
    let kept = filter_analysis_list(&readings, "kari");
    assert_eq!(structures(&kept), vec!["=pppp".to_string(), "".to_string()]);
}

#[test]
fn capitalized_word_keeps_all_readings() {
    let readings = vec![reading("=ippp"), reading("=pppp")];
    let kept = filter_analysis_list(&readings, "Kari");
    assert_eq!(structures(&kept), vec!["=ippp".to_string(), "=pppp".to_string()]);
}

#[test]
fn only_proper_noun_readings_are_kept() {
    let readings = vec![reading("=ippp")];
    let kept = filter_analysis_list(&readings, "kari");
    assert_eq!(structures(&kept), vec!["=ippp".to_string()]);
}

#[test]
fn short_word_keeps_all_readings() {
    let readings = vec![reading("=i"), reading("=p")];
    assert_eq!(filter_analysis_list(&readings, "k").len(), 2);
    assert!(filter_analysis_list(&[], "kari").is_empty());
}
