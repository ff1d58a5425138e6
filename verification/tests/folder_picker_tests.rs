use fc_ui::folder_picker::{interpret_picker_output, parse_command_output};

#[test]
fn picker_success_trims_selected_folder() {
    let r = parse_command_output(true, b"  /home/me/project \n", b"");
    assert_eq!(r, Ok(Some("/home/me/project".to_string())));
}

#[test]
fn picker_success_with_blank_output_selects_nothing() {
    assert_eq!(parse_command_output(true, b" \n\t", b"ignored"), Ok(None));
}

#[test]
fn picker_failure_with_blank_error_is_a_cancel() {
    assert_eq!(parse_command_output(false, b"", b"  \n"), Ok(None));
}

#[test]
fn picker_failure_reporting_cancel_is_not_an_error() {
    assert_eq!(
        parse_command_output(false, b"", b"execution error: User Canceled. (-128)"),
        Ok(None)
    );
    assert_eq!(parse_command_output(false, b"", b"dialog CANCELLED by user"), Ok(None));
    assert_eq!(parse_command_output(false, b"", b"error (-128)"), Ok(None));
}

#[test]
fn picker_failure_reports_trimmed_error_text() {
    assert_eq!(
        parse_command_output(false, b"", b"  Gtk-WARNING: cannot open display\n"),
        Err("native folder picker returned error: Gtk-WARNING: cannot open display".to_string())
    );
}

#[test]
fn picker_decodes_invalid_utf8_lossily() {
    let r = parse_command_output(true, b"/tmp/caf\xff", b"");
    assert_eq!(r, Ok(Some("/tmp/caf\u{FFFD}".to_string())));
}

#[test]
fn picker_interprets_decoded_texts() {
    assert_eq!(
        interpret_picker_output(true, "\u{3000}/data\u{3000}", ""),
        Ok(Some("/data".to_string()))
    );
    assert_eq!(
        interpret_picker_output(false, "", "boom"),
        Err("native folder picker returned error: boom".to_string())
    );
}
