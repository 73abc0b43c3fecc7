use kerblam::text::compress_whitespace;
use kerblam::text::is_whitespace;
use kerblam::text::trim_end_line;

fn strings(v: Vec<&str>) -> Vec<String> {
    v.into_iter().map(|s| s.to_string()).collect()
}

#[test]
fn test_compression() {
    let dirty: Vec<String> = strings(vec![
        "",
        "",
        "hello!   ",
        "   ",
        "  \n  ",
        "how are you?",
        "\n",
        "fine    thanks",
    ]);
    let clean: Vec<String> = strings(vec!["hello!", "", "how are you?", "", "fine    thanks"]);

    assert_eq!(compress_whitespace(dirty), clean);
}

#[test]
fn test_whitespace() {
    assert!(is_whitespace("   "));
    assert!(!is_whitespace("  something  "));
    assert!(is_whitespace("\n\n"));
    assert!(is_whitespace("\t"));
    assert!(is_whitespace("\t\n"));
}

#[test]
fn test_whitespace_empty_line() {
    assert!(is_whitespace(""));
}

#[test]
fn test_compression_all_whitespace() {
    let dirty = strings(vec!["", "  ", "\n"]);
    let clean: Vec<String> = vec![];
    assert_eq!(compress_whitespace(dirty), clean);
}

#[test]
fn test_compression_short_input_kept() {
    let dirty = strings(vec!["   "]);
    assert_eq!(compress_whitespace(dirty), strings(vec!["   "]));
}

#[test]
fn test_trim_end_line() {
    assert_eq!(trim_end_line("a.txt   "), "a.txt".to_string());
    assert_eq!(trim_end_line("keep"), "keep".to_string());
    assert_eq!(trim_end_line("x\t\r\n"), "x".to_string());
    assert_eq!(trim_end_line("   "), "".to_string());
}
