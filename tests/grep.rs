use fstools::scanner::{comparison_text, forms_match, line_matches, scan_lines, LineRecord, Scanner};

fn lines(v: &[&str]) -> Vec<String> {
    v.iter().map(|s| s.to_string()).collect()
}

fn pairs(r: &[LineRecord]) -> Vec<(usize, String)> {
    r.iter().map(|x| (x.number, x.text.clone())).collect()
}

#[test]
fn case_insensitive_scan_reports_first_and_third_line() {
    let r = scan_lines(&lines(&["Hello", "world", "HELLO again"]), "hello", true);
    assert_eq!(pairs(&r), vec![(1, "Hello".to_string()), (3, "HELLO again".to_string())]);
}

#[test]
fn case_sensitive_scan_keeps_case() {
    let r = scan_lines(&lines(&["Hello", "world", "HELLO again"]), "hello", false);
    assert!(r.is_empty());
    let r = scan_lines(&lines(&["Hello", "world", "HELLO again"]), "HELLO", false);
    assert_eq!(pairs(&r), vec![(3, "HELLO again".to_string())]);
}

#[test]
fn insensitive_results_include_sensitive_ones() {
    let file = lines(&["abc", "ABC", "xAbCx", "none"]);
    let cs = scan_lines(&file, "Ab", false);
    let ci = scan_lines(&file, "Ab", true);
    assert_eq!(pairs(&cs), vec![(3, "xAbCx".to_string())]);
    assert_eq!(pairs(&ci).len(), 3);
    for r in pairs(&cs) {
        assert!(pairs(&ci).contains(&r));
    }
}

#[test]
fn empty_pattern_matches_every_line() {
    let r = scan_lines(&lines(&["one", "", "three"]), "", false);
    assert_eq!(pairs(&r), vec![(1, "one".to_string()), (2, "".to_string()), (3, "three".to_string())]);
    let r = scan_lines(&lines(&["one", "two"]), "", true);
    assert_eq!(r.len(), 2);
}

#[test]
fn empty_file_is_not_found() {
    assert!(scan_lines(&Vec::new(), "x", false).is_empty());
    assert!(scan_lines(&Vec::new(), "", true).is_empty());
    let s = Scanner::new("", false);
    assert!(!s.found_any());
}

#[test]
fn scanner_streams_records_with_line_numbers() {
    let mut s = Scanner::new("b", false);
    assert!(s.feed("abc".to_string()).map(|r| r.number) == Some(1));
    assert!(s.feed("xyz".to_string()).is_none());
    let r = s.feed("bb".to_string()).unwrap();
    assert_eq!((r.number, r.text.as_str()), (3, "bb"));
    assert_eq!(s.lines_seen(), 3);
    assert!(s.found_any());
}

#[test]
fn scanner_without_match_reports_not_found() {
    let mut s = Scanner::new("q", true);
    assert!(s.feed("abc".to_string()).is_none());
    assert!(!s.found_any());
}

#[test]
fn comparison_form_lowers_only_when_asked() {
    assert_eq!(comparison_text("HeLLo 1!", true), "hello 1!");
    assert_eq!(comparison_text("HeLLo 1!", false), "HeLLo 1!");
    assert_eq!(comparison_text("ÉCOLE", true), "école");
}

#[test]
fn forms_match_is_substring_containment() {
    assert!(forms_match("abcd", "bc"));
    assert!(!forms_match("abcd", "ac"));
    assert!(forms_match("abcd", ""));
    assert!(!forms_match("", "a"));
}

#[test]
fn line_matches_folds_non_ascii_text() {
    assert!(line_matches("GRÜN und BLAU", "grün", true));
    assert!(!line_matches("GRÜN und BLAU", "grün", false));
    assert!(line_matches("say HELLO", "hello", true));
}

#[test]
fn final_sigma_folds_differently_inside_a_word() {
    // A capital sigma at the end of a word lowers to the final form, a lone
    // one to the ordinary form, so folding can lose a match here.
    assert!(line_matches("ΑΣ", "Σ", false));
    assert!(!line_matches("ΑΣ", "Σ", true));
}
