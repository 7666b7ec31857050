use herobot::text::base_name_of;
use herobot::text::compute_status;

#[test]
fn status_is_first_line() {
    assert_eq!(compute_status("ok\nsecond line\n"), "ok");
}

#[test]
fn status_without_newline() {
    assert_eq!(compute_status("ok"), "ok");
}

#[test]
fn status_trims_trailing_whitespace() {
    assert_eq!(compute_status("ok  \t\r\n"), "ok");
}

#[test]
fn status_keeps_leading_whitespace() {
    assert_eq!(compute_status("  ok\nrest"), "  ok");
}

#[test]
fn status_of_empty_content() {
    assert_eq!(compute_status(""), "");
}

#[test]
fn status_of_blank_line() {
    assert_eq!(compute_status(" \t \nnext"), "");
}

#[test]
fn base_name_strips_directories() {
    assert_eq!(base_name_of("/watch/dir/a.txt"), "a.txt");
}

#[test]
fn base_name_of_bare_name() {
    assert_eq!(base_name_of("a.txt"), "a.txt");
}

#[test]
fn base_name_of_trailing_slash() {
    assert_eq!(base_name_of("/watch/dir/"), "");
}

#[test]
fn base_name_of_empty_path() {
    assert_eq!(base_name_of(""), "");
}
