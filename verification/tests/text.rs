use catapulta::text::{basename_of, collapse_blank_lines, dec_string, lines_of, trim_str};

#[test]
fn decimal_rendering() {
    assert_eq!(dec_string(0), "0");
    assert_eq!(dec_string(7), "7");
    assert_eq!(dec_string(8080), "8080");
    assert_eq!(dec_string(65535), "65535");
}

#[test]
fn basename_strips_directories() {
    assert_eq!(basename_of(".env"), ".env");
    assert_eq!(basename_of("deploy/vps/.env"), ".env");
    assert_eq!(basename_of("a/b/c.txt"), "c.txt");
}

#[test]
fn blank_line_runs_are_capped() {
    assert_eq!(collapse_blank_lines("a\n\n\n\nb"), "a\n\nb");
    assert_eq!(collapse_blank_lines("a\n\nb"), "a\n\nb");
    assert_eq!(collapse_blank_lines(""), "");
}

#[test]
fn line_splitting_matches_std() {
    let text = "one\ntwo\r\nthree\n";
    let mine = lines_of(text);
    let std: Vec<&str> = text.lines().collect();
    assert_eq!(mine, std);
    assert!(lines_of("").is_empty());
}

#[test]
fn trimming() {
    assert_eq!(trim_str("  healthy\n"), "healthy");
    assert_eq!(trim_str("x"), "x");
    assert_eq!(trim_str(" \t "), "");
}
