use dx_styles::utils::{decimal_text, find_code_files, has_code_extension, is_code_file, log_change};

#[test]
fn tsx_and_jsx_files_are_code_files() {
    assert!(is_code_file("a.tsx"));
    assert!(is_code_file("a.jsx"));
    assert!(is_code_file("src/components/Button.tsx"));
    assert!(is_code_file("/abs/path/page.jsx"));
    assert!(is_code_file("a.b.tsx"));
    assert!(is_code_file("..tsx"));
}

#[test]
fn other_files_are_no_code_files() {
    assert!(!is_code_file("a.ts"));
    assert!(!is_code_file("a.js"));
    assert!(!is_code_file("a.tsx.bak"));
    assert!(!is_code_file("a.TSX"));
    assert!(!is_code_file("tsx"));
    assert!(!is_code_file(".tsx"));
    assert!(!is_code_file("src/.jsx"));
    assert!(!is_code_file("a."));
    assert!(!is_code_file(""));
    assert!(!is_code_file("dir.tsx/file"));
    assert!(!is_code_file("a.tsx "));
}

#[test]
fn extension_decides_letter_by_letter() {
    assert!(has_code_extension(Some("tsx")));
    assert!(has_code_extension(Some("jsx")));
    assert!(!has_code_extension(Some("ts")));
    assert!(!has_code_extension(Some("tsxx")));
    assert!(!has_code_extension(Some("Tsx")));
    assert!(!has_code_extension(Some("")));
    assert!(!has_code_extension(None));
}

#[test]
fn decimal_text_writes_numbers() {
    assert_eq!(decimal_text(0), "0");
    assert_eq!(decimal_text(7), "7");
    assert_eq!(decimal_text(10), "10");
    assert_eq!(decimal_text(1234567890), "1234567890");
    assert_eq!(decimal_text(u128::MAX), u128::MAX.to_string());
    for n in 0..2000u128 {
        assert_eq!(decimal_text(n), n.to_string());
    }
}

#[test]
fn event_without_changes_has_no_report() {
    assert!(log_change("src/a.tsx", 0, 0, "./styles.css", 0, 0, 12).is_none());
    assert!(log_change("src/a.tsx", 0, 0, "./styles.css", 0, 0, 0).is_none());
}

#[test]
fn event_with_any_change_has_a_report() {
    assert!(log_change("a.tsx", 1, 0, "s.css", 0, 0, 1).is_some());
    assert!(log_change("a.tsx", 0, 1, "s.css", 0, 0, 1).is_some());
    assert!(log_change("a.tsx", 0, 0, "s.css", 1, 0, 1).is_some());
    assert!(log_change("a.tsx", 0, 0, "s.css", 0, 1, 1).is_some());
}

#[test]
fn report_holds_the_parts_of_the_line() {
    let log = log_change("src/a.tsx", 3, 1, "./styles.css", 2, 0, 250).unwrap();
    assert_eq!(log.source, "src/a.tsx");
    assert_eq!(log.added_file, "+3");
    assert_eq!(log.removed_file, "-1");
    assert_eq!(log.output, "./styles.css");
    assert_eq!(log.added_global, "+2");
    assert_eq!(log.removed_global, "-0");
    assert_eq!(log.time, "250µs");
    assert_eq!(log.line(), "src/a.tsx (+3, -1) -> ./styles.css (+2, -0) · 250µs");
}

#[test]
fn report_gives_whole_milliseconds_from_a_millisecond_on() {
    let time = |us: u128| log_change("a.tsx", 1, 0, "s.css", 0, 0, us).unwrap().time;
    assert_eq!(time(0), "0µs");
    assert_eq!(time(999), "999µs");
    assert_eq!(time(1000), "1ms");
    assert_eq!(time(1999), "1ms");
    assert_eq!(time(2000), "2ms");
    assert_eq!(time(1_234_567), "1234ms");
}

#[test]
fn code_files_are_picked_in_the_order_found() {
    let found: Vec<String> = ["src", "src/b.tsx", "src/a.css", "src/a.jsx", "src/lib/c.tsx", "src/lib/c.ts", "src/b.tsx"]
        .iter()
        .map(|p| p.to_string())
        .collect();
    assert_eq!(find_code_files(&found), vec!["src/b.tsx", "src/a.jsx", "src/lib/c.tsx", "src/b.tsx"]);
    assert!(find_code_files(&Vec::new()).is_empty());
    assert!(find_code_files(&vec!["readme.md".to_string()]).is_empty());
}
