use dirprobe::report::format_result_line;

#[test]
fn line_pads_path_and_right_aligns_status() {
    let line = format_result_line("admin", 404);
    assert_eq!(line, format!("{:<26} -> {:>5}", "admin", 404));
    assert_eq!(line, "admin                      ->   404");
}

#[test]
fn line_keeps_wide_path_and_status_whole() {
    let wide = "a-path-that-is-much-wider-than-the-column";
    assert_eq!(
        format_result_line(wide, 65535),
        format!("{:<26} -> {:>5}", wide, 65535)
    );
}

#[test]
fn line_handles_small_statuses() {
    assert_eq!(format_result_line("x", 7), format!("{:<26} -> {:>5}", "x", 7));
    assert_eq!(format_result_line("x", 0), format!("{:<26} -> {:>5}", "x", 0));
    assert_eq!(format_result_line("x", 200), format!("{:<26} -> {:>5}", "x", 200));
}
