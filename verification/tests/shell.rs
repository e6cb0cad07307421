use cortex::shell::{combine_output_stripped, strip_ansi, tail_lines};

#[test]
fn ansi_escapes_are_removed() {
    assert_eq!(strip_ansi("\x1b[32mfoo\x1b[m bar"), "foo bar");
}

#[test]
fn streams_are_combined() {
    assert_eq!(combine_output_stripped("  ", "\n"), "");
    assert_eq!(combine_output_stripped("\x1b[1mout\x1b[0m", " "), "out");
    assert_eq!(combine_output_stripped("", "err"), "err");
    assert_eq!(combine_output_stripped("out", "err"), "out\nerr");
}

#[test]
fn last_lines_are_kept() {
    assert_eq!(tail_lines("a\nb\r\nc\n", 2), "b\nc");
    assert_eq!(tail_lines("a\nb", 5), "a\nb");
    assert_eq!(tail_lines("", 3), "");
    assert_eq!(tail_lines("a\nb", 0), "");
}
