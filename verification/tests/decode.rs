use tpmu::error::PsError;
use tpmu::field::Field;
use tpmu::manager::Manager;

#[test]
fn duration_forms() {
    let manager = Manager::new();
    assert_eq!(manager.parse_time("01:02:03"), Ok(3723));
    assert_eq!(manager.parse_time("02:03"), Ok(123));
    assert_eq!(manager.parse_time("45"), Ok(45));
    // a fractional-seconds suffix is checked but discarded
    assert_eq!(manager.parse_time("01:02:03.50"), Ok(3723));
}

#[test]
fn duration_rejects_malformed_text() {
    let manager = Manager::new();
    let bad = ["", ":", "1:2:3:4", "1:x", "12.", ".5", "1..2", "4x"];
    for raw in bad {
        assert_eq!(
            manager.parse_time(raw),
            Err(PsError::InvalidDuration {
                raw: raw.trim().to_string()
            })
        );
    }
}

#[test]
fn duration_ignores_surrounding_whitespace() {
    let manager = Manager::new();
    assert_eq!(manager.parse_time("  02:03 "), Ok(123));
}

#[test]
fn terminal_decode() {
    let manager = Manager::new();
    let headers = manager.parse_headers("TTY".to_string());

    let absent = manager.parse_line(headers.clone(), "  ?").unwrap();
    assert_eq!(absent.tty, None);

    let present = manager.parse_line(headers, "pts/0").unwrap();
    assert_eq!(present.tty, Some("pts/0".to_string()));
}

#[test]
fn terminal_absent_only_for_the_exact_question_mark() {
    // only the literal value `?` means "no terminal"; text that merely
    // contains one is kept verbatim
    let manager = Manager::new();
    let headers = manager.parse_headers("TTY".to_string());
    let got = manager.parse_line(headers, "pts/0?").unwrap();
    assert_eq!(got.tty, Some("pts/0?".to_string()));
}

#[test]
fn last_field_absorbs_overflowing_value() {
    // the data line is longer than the header: the final field must run to
    // the line's own end, so the long path is captured whole
    let manager = Manager::new();
    let headers = manager.parse_headers("PID COMM".to_string());
    assert_eq!(headers.len(), 2);
    assert_eq!(headers[1].position.end_col, 8);

    let got = manager
        .parse_line(headers, "  7 /usr/local/bin/some-long-name")
        .unwrap();
    assert_eq!(got.pid, Some(7));
    assert_eq!(got.command, Some("/usr/local/bin/some-long-name".to_string()));
}

#[test]
fn decode_whole_output() {
    let manager = Manager::new();
    let output = " PID  PPID      TIME COMM\n   1     0  01:02:03 /sbin/init\n  42     1     00:05 bash\n";
    let got = manager.parse_ps_output(output).unwrap();
    assert_eq!(got.len(), 2);

    assert_eq!(got[0].pid, Some(1));
    assert_eq!(got[0].parent_pid, Some(0));
    assert_eq!(got[0].time_started, Some(3723));
    assert_eq!(got[0].command, Some("/sbin/init".to_string()));
    assert_eq!(got[0].uid, None);
    assert_eq!(got[0].tty, None);
    assert_eq!(got[0].port, None);

    assert_eq!(got[1].pid, Some(42));
    assert_eq!(got[1].parent_pid, Some(1));
    assert_eq!(got[1].time_started, Some(5));
    assert_eq!(got[1].command, Some("bash".to_string()));
}

#[test]
fn empty_output_is_missing_header() {
    let manager = Manager::new();
    assert_eq!(manager.parse_ps_output(""), Err(PsError::MissingHeader));
}

#[test]
fn header_without_known_labels_is_terminal() {
    let manager = Manager::new();
    assert_eq!(
        manager.parse_ps_output("FOO BAR\n1 2\n"),
        Err(PsError::NoRecognizedFields)
    );
}

#[test]
fn fail_fast_on_bad_integer() {
    // one bad line aborts the whole listing: the error names the field and
    // the offending text, and no partial record list comes back
    let manager = Manager::new();
    let output = " PID COMM\n   1 init\n   x bash\n   2 sh\n";
    assert_eq!(
        manager.parse_ps_output(output),
        Err(PsError::InvalidInteger {
            field: Field::Pid,
            raw: "x".to_string()
        })
    );
}

#[test]
fn integer_overflow_is_invalid() {
    let manager = Manager::new();
    let headers = manager.parse_headers("PID".to_string());
    assert_eq!(
        manager.parse_line(headers.clone(), "4294967296"),
        Err(PsError::InvalidInteger {
            field: Field::Pid,
            raw: "4294967296".to_string()
        })
    );
    let max = manager.parse_line(headers, "4294967295").unwrap();
    assert_eq!(max.pid, Some(4294967295));
}

#[test]
fn bad_duration_reports_the_text() {
    let manager = Manager::new();
    let output = "PID      TIME\n  1 bad:clock\n";
    assert_eq!(
        manager.parse_ps_output(output),
        Err(PsError::InvalidDuration {
            raw: "bad:clock".to_string()
        })
    );
}

#[test]
fn short_line_decodes_what_is_there() {
    // a line shorter than the header still never reads out of bounds; the
    // missing numeric column then fails its conversion
    let manager = Manager::new();
    let headers = manager.parse_headers(" PID  PPID".to_string());
    assert_eq!(
        manager.parse_line(headers, "   3"),
        Err(PsError::InvalidInteger {
            field: Field::Ppid,
            raw: "".to_string()
        })
    );
}

#[test]
fn blank_data_line_fails_its_first_required_field() {
    let manager = Manager::new();
    let output = " PID COMM\n\n";
    assert_eq!(
        manager.parse_ps_output(output),
        Err(PsError::InvalidInteger {
            field: Field::Pid,
            raw: "".to_string()
        })
    );
}

#[test]
fn duplicate_columns_keep_the_rightmost_value() {
    let manager = Manager::new();
    let headers = manager.parse_headers("PID PID".to_string());
    let got = manager.parse_line(headers, "  3   7").unwrap();
    assert_eq!(got.pid, Some(7));
}

#[test]
fn astronomic_duration_is_rejected() {
    let manager = Manager::new();
    assert_eq!(
        manager.parse_time("99999999999999999999:00:00"),
        Err(PsError::InvalidDuration {
            raw: "99999999999999999999:00:00".to_string()
        })
    );
}

#[test]
fn crlf_lines_decode_like_plain_lines() {
    let manager = Manager::new();
    let got = manager.parse_ps_output("PID\r\n 17\r\n").unwrap();
    assert_eq!(got.len(), 1);
    assert_eq!(got[0].pid, Some(17));
}
