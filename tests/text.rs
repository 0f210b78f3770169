use zipper::etype::{is_one, passes_type_filter, EType};
use zipper::pattern::{
    check_match, pattern_sources, regex_extract_line, regex_replace_line, Pattern, PatternSet,
};
use zipper::verbatim::{
    extract_line, finish_extracted, finish_replaced, find_subslice, newline_from_flag, replace_line,
    replace_verbatim, MatchMode, OutputMode,
};

#[test]
fn etype_names() {
    let names: Vec<&str> = EType::all().iter().map(|t| t.as_str()).collect();
    assert_eq!(names, vec!["file", "dir", "link", "fifo", "socket", "block", "char"]);
}

#[test]
fn etype_from_name() {
    assert_eq!(EType::from_name("f"), Some(EType::File));
    assert_eq!(EType::from_name("DIRECTORY"), Some(EType::Dir));
    assert_eq!(EType::from_name("SymLink"), Some(EType::Link));
    assert_eq!(EType::from_name("pipe"), Some(EType::Fifo));
    assert_eq!(EType::from_name("sock"), Some(EType::Socket));
    assert_eq!(EType::from_name("b"), Some(EType::Block));
    assert_eq!(EType::from_name("Character"), Some(EType::Char));
    assert_eq!(EType::from_name("folder"), None);
    assert_eq!(EType::from_name(""), None);
}

#[test]
fn find_subslice_first_match() {
    assert_eq!(find_subslice(b"abcabc", b"bc"), Some(1));
    assert_eq!(find_subslice(b"abcabc", b"abc"), Some(0));
    assert_eq!(find_subslice(b"abcabc", b"cb"), None);
    assert_eq!(find_subslice(b"ab", b"abc"), None);
    assert_eq!(find_subslice(b"xxab", b"ab"), Some(2));
}

#[test]
fn replace_counts_and_limit() {
    assert_eq!(replace_verbatim(b"a-b-c", b"-", b"+", usize::MAX), b"a+b+c".to_vec());
    assert_eq!(replace_verbatim(b"a-b-c", b"-", b"+", 1), b"a+b-c".to_vec());
    assert_eq!(replace_verbatim(b"a-b-c", b"-", b"", 0), b"a-b-c".to_vec());
    assert_eq!(replace_verbatim(b"aaaa", b"aa", b"b", usize::MAX), b"bb".to_vec());
}

#[test]
fn replace_line_appends_newline() {
    let nl = Some(b"\n".to_vec());
    assert_eq!(replace_line(b"one two", b"two", b"2", usize::MAX, &nl), b"one 2\n".to_vec());
    assert_eq!(replace_line(b"", b"x", b"y", usize::MAX, &nl), b"\n".to_vec());
    assert_eq!(replace_line(b"x", b"x", b"y", usize::MAX, &None), b"y".to_vec());
}

#[test]
fn extract_line_keeps_matches_only() {
    let nl = Some(b"\n".to_vec());
    assert_eq!(extract_line(b"cat dog cat", b"cat", b"cat", usize::MAX, &nl), b"catcat\n".to_vec());
    assert_eq!(extract_line(b"cat dog cat", b"cat", b"cat", 1, &nl), b"cat\n".to_vec());
    assert_eq!(extract_line(b"dog", b"cat", b"cat", usize::MAX, &nl), Vec::<u8>::new());
    assert_eq!(extract_line(b"a1a2", b"a", b"X", usize::MAX, &None), b"XX".to_vec());
}

#[test]
fn modes_are_plain_values() {
    assert_eq!(MatchMode::Regex, MatchMode::Regex);
    assert_ne!(MatchMode::Regex, MatchMode::Verbatim);
    match OutputMode::Replace(String::from("r")) {
        OutputMode::Replace(s) => assert_eq!(s, "r"),
        OutputMode::Extract(_) => panic!("wrong mode"),
    }
}

#[test]
fn regex_pattern_compiles_or_not() {
    assert!(Pattern::new(r"\d+").is_ok());
    assert!(Pattern::new(r"(unclosed").is_err());
}

#[test]
fn regex_replace_line_replaces() {
    let p = Pattern::new(r"\d+").unwrap();
    let nl = Some(b"\n".to_vec());
    assert_eq!(regex_replace_line(&p, b"a1b22c333", usize::MAX, b"#", &nl), b"a#b#c#\n".to_vec());
    assert_eq!(regex_replace_line(&p, b"a1b22c333", 2, b"#", &None), b"a#b#c333".to_vec());
    assert_eq!(regex_replace_line(&p, b"abc", 2, b"#", &nl), b"abc\n".to_vec());
    let q = Pattern::new(r"(\w)(\d)").unwrap();
    assert_eq!(regex_replace_line(&q, b"a1", usize::MAX, b"$2$1", &None), b"1a".to_vec());
}

#[test]
fn regex_extract_line_expands_matches() {
    let p = Pattern::new(r"(\d)(\d)").unwrap();
    let nl = Some(b"\n".to_vec());
    assert_eq!(regex_extract_line(&p, b"x12y34", b"$2$1,", &nl), b"21,43,\n".to_vec());
    assert_eq!(regex_extract_line(&p, b"x12y34", b"$0", &None), b"1234".to_vec());
    assert_eq!(regex_extract_line(&p, b"none", b"$0", &nl), Vec::<u8>::new());
}

#[test]
fn finishing_lines() {
    let nl = Some(b"\r\n".to_vec());
    assert_eq!(finish_replaced(b"ab".to_vec(), &nl), b"ab\r\n".to_vec());
    assert_eq!(finish_replaced(Vec::new(), &nl), b"\r\n".to_vec());
    assert_eq!(finish_extracted(Vec::new(), &nl), Vec::<u8>::new());
    assert_eq!(finish_extracted(b"x".to_vec(), &None), b"x".to_vec());
}

#[test]
fn type_filter() {
    assert!(!is_one(&vec![], EType::Dir));
    assert!(is_one(&vec![EType::File, EType::Dir], EType::Dir));
    assert!(!is_one(&vec![EType::File], EType::Link));
}

#[test]
fn globs_become_regexes() {
    let globs = vec![String::from("*.rs"), String::from("Cargo.*")];
    let sources = pattern_sources(&globs, false).unwrap();
    assert_eq!(sources.len(), 2);
    assert_ne!(sources[0], "*.rs");
    let set = PatternSet::new(sources).unwrap();
    assert_eq!(check_match(&set, false, b"src/main.rs", Some(b"main.rs")), Some(true));
    assert_eq!(check_match(&set, false, b"src/main.rc", Some(b"main.rc")), Some(false));
    assert_eq!(check_match(&set, false, b"/", None), None);
    assert_eq!(check_match(&set, true, b"Cargo.toml", None), Some(true));
}

#[test]
fn regex_mode_keeps_patterns() {
    let pats = vec![String::from(r"^ma.n\.rs$")];
    let sources = pattern_sources(&pats, true).unwrap();
    assert_eq!(sources, pats);
    let set = PatternSet::new(sources).unwrap();
    assert_eq!(check_match(&set, false, b"x/main.rs", Some(b"main.rs")), Some(true));
    assert_eq!(check_match(&set, true, b"x/main.rs", Some(b"main.rs")), Some(false));
}

#[test]
fn bad_patterns_are_errors() {
    assert!(pattern_sources(&vec![String::from("a[")], false).is_err());
    assert!(pattern_sources(&vec![String::from("a[")], true).is_ok());
    assert!(PatternSet::new(vec![String::from("a[")]).is_err());
}

fn mode_text(m: &OutputMode) -> (bool, String) {
    match m {
        OutputMode::Replace(s) => (false, s.clone()),
        OutputMode::Extract(s) => (true, s.clone()),
    }
}

#[test]
fn output_mode_from_flags() {
    let pat = String::from("cat");
    let m = OutputMode::from_flags(false, None, true, &pat);
    assert_eq!(mode_text(&m), (true, String::from("cat")));
    let m = OutputMode::from_flags(false, None, false, &pat);
    assert_eq!(mode_text(&m), (true, String::from("$0")));
    let m = OutputMode::from_flags(true, Some(String::from("dog")), false, &pat);
    assert_eq!(mode_text(&m), (true, String::from("dog")));
    let m = OutputMode::from_flags(false, Some(String::from("dog")), true, &pat);
    assert_eq!(mode_text(&m), (false, String::from("dog")));
    assert_eq!(MatchMode::from_flags(true), MatchMode::Verbatim);
    assert_eq!(MatchMode::from_flags(false), MatchMode::Regex);
}

#[test]
fn newline_flag() {
    assert_eq!(newline_from_flag(None, b"\n".to_vec()), Some(b"\n".to_vec()));
    assert_eq!(newline_from_flag(Some(None), b"\n".to_vec()), None);
    assert_eq!(newline_from_flag(Some(Some(String::from(";"))), b"\n".to_vec()), Some(b";".to_vec()));
}

#[test]
fn walk_type_filter() {
    assert!(passes_type_filter(&vec![], Some(EType::Dir)));
    assert!(passes_type_filter(&vec![], None));
    assert!(passes_type_filter(&vec![EType::Link, EType::Dir], Some(EType::Dir)));
    assert!(!passes_type_filter(&vec![EType::File], Some(EType::Link)));
    assert!(!passes_type_filter(&vec![EType::File], None));
}
