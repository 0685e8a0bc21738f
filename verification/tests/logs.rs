use trackforge::logs::{format_log_line, parse_log_entries, parse_log_line};

#[test]
fn parses_timestamp_and_hides_internal_job_id() {
    let entries = parse_log_entries("[1720000000123] job=abc-123 FFmpeg progreso 20%\n");

    assert_eq!(entries.len(), 1);
    assert_eq!(entries[0].timestamp, 1_720_000_000_123);
    assert_eq!(entries[0].message, "FFmpeg progreso 20%");
    assert_eq!(entries[0].level, "info");
}

#[test]
fn marks_error_and_success_entries() {
    let entries = parse_log_entries(
        "[1720000000123] job=one ERROR: fallo de prueba\n[1720000000456] job=one Proceso completado\n",
    );

    assert_eq!(entries[0].level, "error");
    assert_eq!(entries[1].level, "success");
}

#[test]
fn written_log_line_reads_back() {
    let line = format_log_line(1_720_000_000_999, "FFmpeg completed successfully");
    assert_eq!(line, "[1720000000999] FFmpeg completed successfully");
    assert_eq!(
        parse_log_line(&line),
        (1_720_000_000_999, "FFmpeg completed successfully".to_string())
    );
}

#[test]
fn lines_without_timestamp_keep_their_text() {
    assert_eq!(parse_log_line("plain text"), (0, "plain text".to_string()));
    assert_eq!(parse_log_line("[abc] text"), (0, "text".to_string()));
    assert_eq!(parse_log_line("[123 text"), (0, "[123 text".to_string()));
}

#[test]
fn blank_lines_are_skipped_and_crlf_is_stripped() {
    let entries = parse_log_entries("\n   \r\n[5] Error opening file\r\n[6] job=x done\n");
    assert_eq!(entries.len(), 2);
    assert_eq!(entries[0].timestamp, 5);
    assert_eq!(entries[0].message, "Error opening file");
    assert_eq!(entries[0].level, "error");
    assert_eq!(entries[1].message, "done");
    assert_eq!(entries[1].level, "info");
}

#[test]
fn job_prefix_without_space_is_kept() {
    let entries = parse_log_entries("[7] job=lonely");
    assert_eq!(entries[0].message, "job=lonely");
}
